use vstd::prelude::*;
use vstd::string::*;

verus! {

/// The category of a failure reported by the compiler or the virtual machine.
#[derive(Clone, Copy, Debug, PartialEq, Eq, Structural)]
pub enum ErrorKind {
    AttributeError,
    CompileError,
    IndexError,
    NameError,
    RuntimeError,
    TypeError,
    ValueError,
}

/// An error: its kind and the messages collected so far, oldest first.
#[derive(Clone, Debug)]
pub struct Error {
    kind: ErrorKind,
    messages: Vec<String>,
}

/// The messages of a list of strings, as character sequences.
pub open spec fn messages_view(messages: Seq<String>) -> Seq<Seq<char>> {
    messages.map_values(|m: String| m@)
}

/// Each message followed by a line break, concatenated.
pub open spec fn lines_text(messages: Seq<Seq<char>>) -> Seq<char>
    decreases messages.len(),
{
    if messages.len() == 0 {
        Seq::empty()
    } else {
        lines_text(messages.drop_last()) + messages.last() + seq!['\n']
    }
}

/// Whether `r` is an error of kind `kind` holding the one message `message`.
pub open spec fn fails_with<T>(r: Result<T, Error>, kind: ErrorKind, message: Seq<char>) -> bool {
    r matches Err(e) && e.spec_kind() == kind && e.spec_messages() == seq![message]
}

/// Writes each message followed by a line break.
pub fn join_lines(messages: &Vec<String>) -> (s: String)
    ensures
        s@ == lines_text(messages_view(messages@)),
{
    let mut out = String::new();
    let mut i: usize = 0;
    while i < messages.len()
        invariant
            i <= messages@.len(),
            out@ == lines_text(messages_view(messages@.take(i as int))),
        decreases messages@.len() - i,
    {
        out.append(messages[i].as_str());
        out.append("\n");
        proof {
            reveal_strlit("\n");
            assert(messages_view(messages@.take((i + 1) as int)).drop_last()
                =~= messages_view(messages@.take(i as int)));
        }
        i = i + 1;
    }
    assert(messages@.take(i as int) =~= messages@);
    out
}

/// Whether `after` is `before` with the message `message` added: the same
/// kind, and the messages of `before` followed by `message`.
pub open spec fn message_added(before: Error, after: Error, message: Seq<char>) -> bool {
    &&& after.spec_kind() == before.spec_kind()
    &&& after.spec_messages() == before.spec_messages().push(message)
}

/// Adding any number of messages, one after another, keeps the kind the
/// error was made with, and the error then holds its first messages
/// followed by those added, in order.
pub proof fn lemma_messages_added(errors: Seq<Error>, messages: Seq<Seq<char>>)
    requires
        errors.len() == messages.len() + 1,
        forall|i: int| 0 <= i < messages.len() ==> message_added(errors[i], errors[i + 1], #[trigger] messages[i]),
    ensures
        errors.last().spec_kind() == errors[0].spec_kind(),
        errors.last().spec_messages() == errors[0].spec_messages() + messages,
    decreases messages.len(),
{
    if messages.len() > 0 {
        let n = messages.len() as int;
        lemma_messages_added(errors.drop_last(), messages.drop_last());
        assert(message_added(errors[n - 1], errors[n], messages[n - 1]));
        assert(errors.drop_last().last() == errors[n - 1]);
        assert(errors[0].spec_messages() + messages =~= (errors[0].spec_messages() + messages.drop_last()).push(
            messages[n - 1],
        ));
    } else {
        assert(errors[0].spec_messages() + messages =~= errors[0].spec_messages());
    }
}

impl Error {
    /// The kind of the error.
    pub closed spec fn spec_kind(&self) -> ErrorKind {
        self.kind
    }

    /// The messages of the error, oldest first.
    pub closed spec fn spec_messages(&self) -> Seq<Seq<char>> {
        messages_view(self.messages@)
    }

    /// An error of the given kind with no message.
    pub fn new(kind: ErrorKind) -> (e: Self)
        ensures
            e.spec_kind() == kind,
            e.spec_messages() == Seq::<Seq<char>>::empty(),
    {
        let e = Error { kind, messages: Vec::new() };
        assert(e.spec_messages() =~= Seq::<Seq<char>>::empty());
        e
    }

    /// An error of the given kind holding one message.
    pub fn with_message(kind: ErrorKind, message: &str) -> (e: Self)
        ensures
            e.spec_kind() == kind,
            e.spec_messages() == seq![message@],
    {
        let mut messages: Vec<String> = Vec::new();
        messages.push(message.to_owned());
        let e = Error { kind, messages };
        assert(e.spec_messages() =~= seq![message@]);
        e
    }

    /// An error of the given kind holding the given messages in order.
    pub fn with_messages(kind: ErrorKind, messages: &[&str]) -> (e: Self)
        ensures
            e.spec_kind() == kind,
            e.spec_messages() == messages@.map_values(|m: &str| m@),
    {
        let mut owned: Vec<String> = Vec::new();
        let mut i: usize = 0;
        while i < messages.len()
            invariant
                i <= messages@.len(),
                messages_view(owned@) =~= messages@.take(i as int).map_values(|m: &str| m@),
            decreases messages@.len() - i,
        {
            let ghost prev = owned@;
            owned.push(messages[i].to_owned());
            i = i + 1;
            assert(messages@.take(i as int) =~= messages@.take((i - 1) as int).push(messages@[i - 1]));
            assert(messages_view(owned@) =~= messages_view(prev).push(messages@[i - 1]@));
        }
        assert(messages@.take(i as int) =~= messages@);
        Error { kind, messages: owned }
    }

    /// Appends a message after those already held.
    pub fn add_message(&mut self, message: &str)
        ensures
            final(self).spec_kind() == old(self).spec_kind(),
            final(self).spec_messages() == old(self).spec_messages().push(message@),
            message_added(*old(self), *final(self), message@),
    {
        self.messages.push(message.to_owned());
        assert(messages_view(self.messages@) =~= messages_view(old(self).messages@).push(message@));
    }

    /// The kind of the error.
    pub fn get_kind(&self) -> (k: ErrorKind)
        ensures
            k == self.spec_kind(),
    {
        self.kind
    }

    /// The messages of the error, oldest first.
    pub fn get_messages(&self) -> (m: &Vec<String>)
        ensures
            messages_view(m@) == self.spec_messages(),
    {
        &self.messages
    }

    /// The text shown for the error: each message followed by a line break.
    pub fn to_string(&self) -> (s: String)
        ensures
            s@ == lines_text(self.spec_messages()),
    {
        join_lines(&self.messages)
    }
}

} // verus!
