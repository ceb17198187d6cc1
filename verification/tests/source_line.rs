use const_source_position::rewrite::source_line;
use const_source_position::parse::PathError;

#[test]
fn multi_segment_path() {
    let out = source_line(b"foo::bar::Baz", b"src/x.rs", 10, 5).unwrap();
    assert_eq!(out, b"foo::bar::Baz::<\"src/x.rs:10:5\">".to_vec());
}

#[test]
fn leading_qualifier() {
    let out = source_line(b"::foo::Baz", b"src/x.rs", 10, 5).unwrap();
    assert_eq!(out, b"::foo::Baz::<\"src/x.rs:10:5\">".to_vec());
}

#[test]
fn single_segment() {
    let out = source_line(b"Baz", b"lib.rs", 1, 0).unwrap();
    assert_eq!(out, b"Baz::<\"lib.rs:1:0\">".to_vec());
}

#[test]
fn replaces_existing_plain_args() {
    let out = source_line(b"Foo<T>", b"f.rs", 2, 3).unwrap();
    assert_eq!(out, b"Foo::<\"f.rs:2:3\">".to_vec());
}

#[test]
fn replaces_existing_turbofish_args() {
    let out = source_line(b"a::b::C::<u8, u16>", b"f.rs", 7, 9).unwrap();
    assert_eq!(out, b"a::b::C::<\"f.rs:7:9\">".to_vec());
}

#[test]
fn distinct_sites_give_distinct_outputs() {
    let here = source_line(b"foo::Baz", b"src/x.rs", 10, 5).unwrap();
    let there = source_line(b"foo::Baz", b"src/x.rs", 11, 5).unwrap();
    let elsewhere = source_line(b"foo::Baz", b"src/y.rs", 10, 5).unwrap();
    assert_ne!(here, there);
    assert_ne!(here, elsewhere);
    assert_ne!(there, elsewhere);
    let shifted = source_line(b"foo::Baz", b"src/x.rs", 10, 6).unwrap();
    assert_ne!(here, shifted);
}

#[test]
fn same_site_gives_same_output() {
    let a = source_line(b"foo::Baz", b"src/x.rs", 10, 5).unwrap();
    let b = source_line(b"foo::Baz", b"src/x.rs", 10, 5).unwrap();
    assert_eq!(a, b);
}

#[test]
fn malformed_inputs_are_rejected() {
    assert!(matches!(source_line(b"42", b"f.rs", 1, 1), Err(PathError::MalformedPath)));
    assert!(matches!(source_line(b"", b"f.rs", 1, 1), Err(PathError::MalformedPath)));
    assert!(matches!(source_line(b"foo::", b"f.rs", 1, 1), Err(PathError::MalformedPath)));
    assert!(matches!(source_line(b"::", b"f.rs", 1, 1), Err(PathError::MalformedPath)));
    assert!(matches!(source_line(b"foo bar", b"f.rs", 1, 1), Err(PathError::MalformedPath)));
    assert!(matches!(source_line(b"foo:bar", b"f.rs", 1, 1), Err(PathError::MalformedPath)));
    assert!(matches!(source_line(b"a::<T", b"f.rs", 1, 1), Err(PathError::MalformedPath)));
    assert!(matches!(source_line(b"<T>", b"f.rs", 1, 1), Err(PathError::MalformedPath)));
    assert!(matches!(source_line(b"a.b", b"f.rs", 1, 1), Err(PathError::MalformedPath)));
    assert!(matches!(source_line(b"1abc", b"f.rs", 1, 1), Err(PathError::MalformedPath)));
}

#[test]
fn whitespace_between_tokens() {
    let out = source_line(b"foo :: bar :: Baz", b"src/x.rs", 10, 5).unwrap();
    assert_eq!(out, b"foo::bar::Baz::<\"src/x.rs:10:5\">".to_vec());
    let out = source_line(b" foo\n::\tbar ", b"f.rs", 3, 4).unwrap();
    assert_eq!(out, b"foo::bar::<\"f.rs:3:4\">".to_vec());
}

#[test]
fn earlier_segment_arguments_are_kept() {
    let out = source_line(b"a<Vec<u8>>::C", b"x.rs", 1, 1).unwrap();
    assert_eq!(out, b"a<Vec<u8>>::C::<\"x.rs:1:1\">".to_vec());
    let out = source_line(b"a::<u8>::C", b"x.rs", 1, 1).unwrap();
    assert_eq!(out, b"a::<u8>::C::<\"x.rs:1:1\">".to_vec());
}

#[test]
fn file_path_needing_escapes() {
    let out = source_line(b"X", b"di\"r\\x.rs", 1, 2).unwrap();
    assert_eq!(out, b"X::<\"di\\\"r\\\\x.rs:1:2\">".to_vec());
}

#[test]
fn zero_line_and_column() {
    let out = source_line(b"X", b"f.rs", 0, 0).unwrap();
    assert_eq!(out, b"X::<\"f.rs:0:0\">".to_vec());
}

#[test]
fn largest_line_and_column() {
    let out = source_line(b"X", b"f.rs", u32::MAX, u32::MAX).unwrap();
    assert_eq!(out, b"X::<\"f.rs:4294967295:4294967295\">".to_vec());
}
