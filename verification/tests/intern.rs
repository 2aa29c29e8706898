use std::mem::size_of;

use vnodes::intern::{ident_ok, intern, intern_byte, unintern_byte, Interned};
use vnodes::path::{path_ok, InternedPathBuf};

#[test]
fn check_no_pad() {
    assert_eq!(size_of::<Interned>(), size_of::<u64>());
}

#[test]
fn simple_path() {
    let path = InternedPathBuf::from("very/simple/path");
    assert_eq!(path.path()[0], Interned::from("very"));
    assert_eq!(path.path()[1], Interned::from("simple"));
    assert_eq!(path.path()[2], Interned::from("path"));
}

#[test]
fn absolute() {
    let path = InternedPathBuf::from("/this/is/an/absolute/path");
    assert!(path.is_absolute());
}

fn check_same(s: &str) {
    let interned = Interned::from(s);
    let mut un_interned = [0; 10];
    let len = interned.un_intern_raw(&mut un_interned);
    let un_interned = std::str::from_utf8(&un_interned[..len]).unwrap();
    println!("{}", un_interned);
    assert_eq!(interned, Interned::from(un_interned));
}

fn check_exact_same(s: &str) {
    let interned = Interned::from(s);
    let mut un_interned = [0; 10];
    let len = interned.un_intern_raw(&mut un_interned);
    let un_interned = std::str::from_utf8(&un_interned[..len]).unwrap();
    assert_eq!(s, un_interned);
}

#[test]
fn check_idents() {
    check_same("my-world");
    check_same("WhAtEvEr");
    check_same("conf.ron");

    check_exact_same("exact_str");
    check_exact_same("my.world");
    check_exact_same("007");
}

#[test]
fn intern_packs_six_bits_per_character() {
    assert_eq!(intern(b""), 0);
    assert_eq!(intern(b"a"), 1);
    assert_eq!(intern(b"z"), 26);
    assert_eq!(intern(b"0"), 27);
    assert_eq!(intern(b"9"), 36);
    assert_eq!(intern(b"_"), 37);
    assert_eq!(intern(b"-"), 37);
    assert_eq!(intern(b"."), 38);
    assert_eq!(intern(b"ab"), 1 * 64 + 2);
    assert_eq!(intern(b"abc"), (1 * 64 + 2) * 64 + 3);
    assert_eq!(intern(b"A"), intern(b"a"));
    assert_eq!(intern(b"zzzzzzzzzz"), {
        let mut code: u64 = 0;
        for _ in 0..10 {
            code = code * 64 + 26;
        }
        code
    });
}

#[test]
fn intern_byte_and_back() {
    for b in 0..=255u8 {
        if vnodes::intern::ident_byte_ok(b) {
            let c = intern_byte(b);
            assert!(1 <= c && c <= 38);
            let back = unintern_byte(c);
            assert_eq!(back, b.to_ascii_lowercase().max(if b == b'-' { b'_' } else { 0 }));
        }
    }
    assert_eq!(intern_byte(b'a'), 1);
    assert_eq!(intern_byte(b'Z'), 26);
    assert_eq!(intern_byte(b'5'), 32);
    assert_eq!(unintern_byte(37), b'_');
    assert_eq!(unintern_byte(38), b'.');
}

#[test]
fn round_trip_folds_case_and_hyphen() {
    let code = Interned::from("My-World");
    assert!(code.is_readable());
    assert_eq!(code.un_intern(), b"my_world".to_vec());
    assert_eq!(Interned::from_bytes(&code.un_intern()), code);
    let longest = Interned::from("abcdefghij");
    assert_eq!(longest.un_intern(), b"abcdefghij".to_vec());
}

#[test]
fn un_intern_raw_leaves_the_rest_of_the_buffer() {
    let code = Interned::from("abc");
    let mut buf = [7u8; 12];
    let len = code.un_intern_raw(&mut buf);
    assert_eq!(len, 3);
    assert_eq!(&buf[..3], b"abc");
    assert_eq!(&buf[3..], &[7u8; 9]);
}

#[test]
fn reading_stops_at_the_first_empty_slot() {
    // "a", an empty slot, "b": only what follows the empty slot is text.
    let code = Interned(1 * 64 * 64 + 2);
    assert!(code.is_readable());
    assert_eq!(code.un_intern(), b"b".to_vec());
    assert_eq!(Interned(0).un_intern(), Vec::<u8>::new());
    assert!(Interned(0).is_empty());
    assert!(!Interned(1).is_empty());
    assert_eq!(Interned(77).into_inner(), 77);
}

#[test]
fn unreadable_codes_are_told_apart() {
    assert!(!Interned(39).is_readable());
    assert!(!Interned(63).is_readable());
    assert!(Interned(38).is_readable());
    assert!(!Interned(64 * 40 + 1).is_readable());
    // Slots behind an empty one are not read.
    assert!(Interned(64 * 64 * 40).is_readable());
}

#[test]
fn ident_ok_checks_characters_and_length() {
    assert!(ident_ok(b""));
    assert!(ident_ok(b"abc-DEF_0.9"[..10].as_ref()));
    assert!(!ident_ok(b"abcdefghijk"));
    assert!(!ident_ok(b"a/b"));
    assert!(!ident_ok(b"a b"));
    assert!(!ident_ok("é".as_bytes()));
}

#[test]
fn paths_split_at_every_separator() {
    assert_eq!(InternedPathBuf::from("").path(), &[Interned(0)]);
    assert_eq!(InternedPathBuf::from("/").path(), &[Interned(0), Interned(0)]);
    assert_eq!(
        InternedPathBuf::from("a//b").path(),
        &[Interned(1), Interned(0), Interned(2)]
    );
    assert_eq!(InternedPathBuf::from("ab/").path(), &[Interned(66), Interned(0)]);
    assert_eq!(InternedPathBuf::from_str("a/b"), InternedPathBuf::from("a/b"));
    assert_eq!(
        InternedPathBuf::from_bytes(b"x/y").path(),
        &[Interned(24), Interned(25)]
    );
    assert!(!InternedPathBuf::from("relative/path").is_absolute());
    assert!(!InternedPathBuf::from_iter(vec![]).is_absolute());
}

#[test]
fn path_ok_checks_every_segment() {
    assert!(path_ok(b""));
    assert!(path_ok(b"/foo/bar"));
    assert!(path_ok(b"abcdefghij/abcdefghij"));
    assert!(!path_ok(b"abcdefghijk/x"));
    assert!(!path_ok(b"x/abcdefghijk"));
    assert!(!path_ok(b"foo/b r"));
}

#[test]
fn path_pop_and_boxed_slice() {
    let mut path = InternedPathBuf::from("a/b/c");
    assert_eq!(path.pop(), Some(Interned(3)));
    assert_eq!(path.path(), &[Interned(1), Interned(2)]);
    let boxed = path.into_boxed_slice();
    assert_eq!(&*boxed, &[Interned(1), Interned(2)]);
    let back = InternedPathBuf::from_boxed_slice(boxed);
    assert_eq!(back.path(), &[Interned(1), Interned(2)]);
    let mut empty = InternedPathBuf::from_iter(vec![]);
    assert_eq!(empty.pop(), None);
}
