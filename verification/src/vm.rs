use vstd::prelude::*;

use crate::error::{join_lines, lines_text, messages_view};

verus! {

/// An error raised while compiling or running a program, by category, with
/// its messages oldest first.
#[derive(Clone, Debug)]
pub enum VmError {
    AttributeError(Vec<String>),
    CompileError(Vec<String>),
    IndexError(Vec<String>),
    RuntimeError(Vec<String>),
    TypeError(Vec<String>),
    ValueError(Vec<String>),
}

impl VmError {
    /// The messages the error holds.
    pub open spec fn spec_messages(&self) -> Seq<Seq<char>> {
        match self {
            VmError::AttributeError(m) => messages_view(m@),
            VmError::CompileError(m) => messages_view(m@),
            VmError::IndexError(m) => messages_view(m@),
            VmError::RuntimeError(m) => messages_view(m@),
            VmError::TypeError(m) => messages_view(m@),
            VmError::ValueError(m) => messages_view(m@),
        }
    }

    /// Whether two errors are of the same category.
    pub open spec fn same_category(&self, other: &VmError) -> bool {
        match (self, other) {
            (VmError::AttributeError(_), VmError::AttributeError(_)) => true,
            (VmError::CompileError(_), VmError::CompileError(_)) => true,
            (VmError::IndexError(_), VmError::IndexError(_)) => true,
            (VmError::RuntimeError(_), VmError::RuntimeError(_)) => true,
            (VmError::TypeError(_), VmError::TypeError(_)) => true,
            (VmError::ValueError(_), VmError::ValueError(_)) => true,
            _ => false,
        }
    }

    /// Appends a message after those already held.
    pub fn add_message(&mut self, message: String)
        ensures
            final(self).same_category(old(self)),
            final(self).spec_messages() == old(self).spec_messages().push(message@),
    {
        match self {
            VmError::AttributeError(msgs) => msgs.push(message),
            VmError::CompileError(msgs) => msgs.push(message),
            VmError::IndexError(msgs) => msgs.push(message),
            VmError::RuntimeError(msgs) => msgs.push(message),
            VmError::TypeError(msgs) => msgs.push(message),
            VmError::ValueError(msgs) => msgs.push(message),
        }
        assert(self.spec_messages() =~= old(self).spec_messages().push(message@));
    }

    /// The text shown for the error: each message followed by a line break.
    pub fn to_string(&self) -> (s: String)
        ensures
            s@ == lines_text(self.spec_messages()),
    {
        match self {
            VmError::AttributeError(m) => join_lines(m),
            VmError::CompileError(m) => join_lines(m),
            VmError::IndexError(m) => join_lines(m),
            VmError::RuntimeError(m) => join_lines(m),
            VmError::TypeError(m) => join_lines(m),
            VmError::ValueError(m) => join_lines(m),
        }
    }
}

} // verus!
