use yarel::error::{join_lines, Error, ErrorKind};
use yarel::hash::{BuildPassThroughHasher, FnvHasher, PassThroughHasher, FNV_OFFSET_BASIS, FNV_PRIME};
use yarel::stack::Stack;
use yarel::text::{chars_to_string, string_to_chars, usize_to_string};
use yarel::unsafe_ref_cell::UnsafeRefCell;
use yarel::vm::VmError;

#[test]
fn error_collects_messages_in_order() {
    let mut e = Error::new(ErrorKind::RuntimeError);
    assert_eq!(e.get_kind(), ErrorKind::RuntimeError);
    assert!(e.get_messages().is_empty());
    e.add_message("first");
    e.add_message("second");
    assert_eq!(e.get_messages(), &vec!["first".to_owned(), "second".to_owned()]);
    assert_eq!(e.get_kind(), ErrorKind::RuntimeError);
    assert_eq!(e.to_string(), "first\nsecond\n");
}

#[test]
fn error_constructors() {
    let e = Error::with_message(ErrorKind::TypeError, "bad");
    assert_eq!(e.get_kind(), ErrorKind::TypeError);
    assert_eq!(e.get_messages(), &vec!["bad".to_owned()]);
    let e = Error::with_messages(ErrorKind::NameError, &["a", "b", "c"]);
    assert_eq!(e.get_kind(), ErrorKind::NameError);
    assert_eq!(e.get_messages().len(), 3);
    assert_eq!(e.get_messages()[2], "c");
    assert_eq!(Error::new(ErrorKind::ValueError).to_string(), "");
}

#[test]
fn join_lines_ends_each_message() {
    assert_eq!(join_lines(&vec!["x".to_owned(), "".to_owned()]), "x\n\n");
    assert_eq!(join_lines(&Vec::new()), "");
}

#[test]
fn vm_error_add_message_keeps_the_category() {
    let mut e = VmError::RuntimeError(vec!["boom".to_owned()]);
    e.add_message("at line 3".to_owned());
    match &e {
        VmError::RuntimeError(m) => assert_eq!(m, &vec!["boom".to_owned(), "at line 3".to_owned()]),
        _ => panic!("category changed"),
    }
    assert_eq!(e.to_string(), "boom\nat line 3\n");
    let mut c = VmError::CompileError(Vec::new());
    c.add_message("oops".to_owned());
    assert_eq!(c.to_string(), "oops\n");
}

#[test]
fn fnv_hash_values() {
    assert_eq!(FNV_OFFSET_BASIS, 2166136261);
    assert_eq!(FNV_PRIME, 16777619);
    let h = FnvHasher::new();
    assert_eq!(h.finish(), 2166136261);
    let mut h = FnvHasher::default();
    h.write(b"a");
    assert_eq!(h.finish(), 36342608335481132);
    let mut h = FnvHasher::new();
    h.write(b"foo");
    h.write(b"bar");
    assert_eq!(h.finish(), 2997188912924653928);
}

#[test]
fn fnv_hasher_serves_std_hashing() {
    let mut h = FnvHasher::new();
    std::hash::Hasher::write(&mut h, b"foobar");
    assert_eq!(std::hash::Hasher::finish(&h), 2997188912924653928);
}

#[test]
fn pass_through_hasher_keeps_the_value() {
    let b = BuildPassThroughHasher::default();
    let mut h: PassThroughHasher = b.build_hasher();
    assert_eq!(h.finish(), 0);
    h.write_u64(0xdead_beef);
    assert_eq!(h.finish(), 0xdead_beef);
    let mut h = PassThroughHasher::default();
    h.write(&42u64.to_ne_bytes());
    assert_eq!(h.finish(), 42);
}

#[test]
fn stack_push_pop_peek() {
    let mut s: Stack<u32, 4> = Stack::new();
    assert_eq!(s.len(), 0);
    assert_eq!(s.pop(), None);
    s.push(1);
    s.push(2);
    s.push(3);
    assert_eq!(s.len(), 3);
    assert_eq!(*s.peek(0), 3);
    assert_eq!(*s.peek(2), 1);
    assert_eq!(*s.index(1), 2);
    s.set(1, 20);
    assert_eq!(*s.index(1), 20);
    assert_eq!(s.pop(), Some(3));
    assert_eq!(s.len(), 2);
    // The popped value stays in its slot.
    assert_eq!(*s.index(2), 3);
}

#[test]
fn stack_truncate_and_clear() {
    let mut s: Stack<u8, 8> = Stack::new();
    for v in 0..5 {
        s.push(v);
    }
    s.truncate(10);
    assert_eq!(s.len(), 5);
    s.truncate(2);
    assert_eq!(s.len(), 2);
    assert_eq!(*s.peek(0), 1);
    s.clear();
    assert_eq!(s.len(), 0);
    assert_eq!(*s.index(7), 0);
}

#[test]
fn ref_cell_borrows() {
    let mut c = UnsafeRefCell::new(5u32);
    assert_eq!(*c.borrow(), 5);
    assert_eq!(*c.borrow(), 5);
    c.release();
    c.release();
    let previous = c.borrow_mut_replace(7);
    assert_eq!(previous, 5);
    c.release_mut();
    assert_eq!(*c.borrow(), 7);
}

#[test]
fn decimal_text() {
    assert_eq!(usize_to_string(0), "0");
    assert_eq!(usize_to_string(7), "7");
    assert_eq!(usize_to_string(1204), "1204");
    assert_eq!(usize_to_string(usize::MAX), usize::MAX.to_string());
}

#[test]
fn chars_round_trip() {
    let chars = string_to_chars("h\u{e9}llo");
    assert_eq!(chars, vec!['h', '\u{e9}', 'l', 'l', 'o']);
    assert_eq!(chars_to_string(&chars, 1, 3), "\u{e9}l");
    assert_eq!(chars_to_string(&chars, 0, 0), "");
}
