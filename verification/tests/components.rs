use const_source_position::path::{GenericArgs, PathSegment, TypePath};
use const_source_position::parse::{parse_type_path, PathError};
use const_source_position::render::render_type_path;
use const_source_position::rewrite::with_location;
use const_source_position::location::location_bytes;
use const_source_position::literal::quote_bytes;

#[test]
fn parse_then_render_is_canonical() {
    let path = parse_type_path(b"foo :: bar").unwrap();
    assert_eq!(render_type_path(&path), b"foo::bar".to_vec());
    let path = parse_type_path(b"::a::b<T>::c::<U>").unwrap();
    assert_eq!(render_type_path(&path), b"::a::b<T>::c::<U>".to_vec());
}

#[test]
fn parse_reads_the_structure() {
    let path = parse_type_path(b"::foo::Baz<T>").unwrap();
    assert!(path.leading_colon);
    assert_eq!(path.segments.len(), 2);
    assert_eq!(path.segments[0].name, b"foo".to_vec());
    assert_eq!(path.segments[0].args, None);
    assert_eq!(path.segments[1].name, b"Baz".to_vec());
    assert_eq!(
        path.segments[1].args,
        Some(GenericArgs { turbofish: false, inner: b"T".to_vec() })
    );
}

#[test]
fn parse_rejects_unbalanced_brackets() {
    assert!(matches!(parse_type_path(b"a<T"), Err(PathError::MalformedPath)));
    assert!(matches!(parse_type_path(b"a<Vec<u8>"), Err(PathError::MalformedPath)));
    assert!(matches!(parse_type_path(b"a<T>>"), Err(PathError::MalformedPath)));
}

#[test]
fn with_location_replaces_only_the_last_segment() {
    let path = TypePath {
        leading_colon: false,
        segments: vec![
            PathSegment { name: b"m".to_vec(), args: None },
            PathSegment {
                name: b"T".to_vec(),
                args: Some(GenericArgs { turbofish: true, inner: b"u8".to_vec() }),
            },
        ],
    };
    let placed = with_location(path, b"f.rs:1:2");
    assert_eq!(placed.segments.len(), 2);
    assert_eq!(placed.segments[0].name, b"m".to_vec());
    assert_eq!(placed.segments[0].args, None);
    assert_eq!(placed.segments[1].name, b"T".to_vec());
    assert_eq!(
        placed.segments[1].args,
        Some(GenericArgs { turbofish: true, inner: b"\"f.rs:1:2\"".to_vec() })
    );
}

#[test]
fn location_text_is_exact() {
    assert_eq!(location_bytes(b"f.rs", 12, 34), b"f.rs:12:34".to_vec());
    assert_eq!(location_bytes(b"", 0, 0), b":0:0".to_vec());
}

#[test]
fn quoting_escapes_quotes_and_backslashes() {
    assert_eq!(quote_bytes(b"plain"), b"\"plain\"".to_vec());
    assert_eq!(quote_bytes(b"a\"b"), b"\"a\\\"b\"".to_vec());
    assert_eq!(quote_bytes(b"a\\b"), b"\"a\\\\b\"".to_vec());
    assert_eq!(quote_bytes(b""), b"\"\"".to_vec());
}
