use mooncats::errors::ErrorKind;
use mooncats::location::{FileUri, Position, Range};

fn pos(line: u64, character: u64) -> Position {
    Position { line, character }
}

#[test]
fn position_unpack_splits_at_ten_thousands() {
    let p = Position::unpack(35_0042);
    assert_eq!(p, pos(35, 42));
    let q = Position::unpack(9_999);
    assert_eq!(q, pos(0, 9_999));
}

#[test]
fn position_pack_roundtrip_concrete() {
    let p = pos(123_456, 7_890);
    assert_eq!(Position::unpack(p.pack()), p);
    let q = pos(0, 0);
    assert_eq!(Position::unpack(q.pack()), q);
}

#[test]
fn position_pack_clamps_character() {
    let p = pos(7, 25_000);
    assert_eq!(p.pack(), 7 * 10_000 + 9_999);
}

#[test]
fn range_construction_rejects_reversed_bounds() {
    assert!(Range::try_new(pos(2, 0), pos(1, 0)).is_none());
    assert!(Range::try_new(pos(1, 5), pos(1, 4)).is_none());
    assert!(Range::try_new(pos(1, 4), pos(1, 4)).is_some());
}

#[test]
fn range_join_is_a_guarded_extension() {
    let a = Range::new(pos(1, 0), pos(2, 0));
    let b = Range::new(pos(3, 0), pos(9, 0));
    let joined = a.join(&b);
    assert_eq!(joined.bounds(), (pos(1, 0), pos(9, 0)));
}

#[test]
fn range_join_keeps_self_when_other_starts_early() {
    // The overlap guard is asymmetric on purpose: even though `other`
    // reaches further, an early start leaves `self` unchanged.
    let a = Range::new(pos(1, 0), pos(2, 0));
    let b = Range::new(pos(1, 5), pos(9, 0));
    let joined = a.join(&b);
    assert_eq!(joined.bounds(), (pos(1, 0), pos(2, 0)));
}

#[test]
fn file_uri_parse_accepts_file_scheme() {
    let uri = FileUri::parse("file:///ws/lib/init.lua").unwrap();
    assert_eq!(uri.as_path(), "/ws/lib/init.lua");
    assert_eq!(uri.file_name(), "init.lua");
    assert_eq!(uri.file_stem(), "init");
    assert_eq!(uri.extension(), "lua");
    assert_eq!(uri.depth(), 2);
}

#[test]
fn file_uri_parse_rejects_other_schemes() {
    let err = FileUri::parse("https://example.com/a.lua").unwrap_err();
    assert_eq!(err.kind, ErrorKind::UriMissingFileScheme);
}

#[test]
fn file_uri_parse_rejects_unparsable_input() {
    let err = FileUri::parse("not a uri at all").unwrap_err();
    assert_eq!(err.kind, ErrorKind::UriNotParsable);
}

#[test]
fn file_uri_parse_rejects_bare_root() {
    let err = FileUri::parse("file:///").unwrap_err();
    assert_eq!(err.kind, ErrorKind::UriMissingFileName);
}

#[test]
fn file_uri_name_queries() {
    let uri = FileUri::parse("file:///ws/foo/bar.lua").unwrap();
    assert_eq!(uri.dirname(), Some("foo".to_string()));
    let top = FileUri::parse("file:///top.lua").unwrap();
    assert_eq!(top.dirname(), None);
    let noext = FileUri::parse("file:///ws/Makefile").unwrap();
    assert_eq!(noext.file_stem(), "Makefile");
    assert_eq!(noext.extension(), "");
}

#[test]
fn file_uri_prefix_queries() {
    // The containment test is textual: a path is prefixed by another when
    // its text starts with the other's text.
    let root = FileUri::parse("file:///ws/sub.lua").unwrap();
    let uri = FileUri::parse("file:///ws/sub.lua").unwrap();
    assert!(uri.starts_with_path(&root));

    let base = FileUri::parse("file:///ws/a.lua").unwrap();
    let other = FileUri::parse("file:///elsewhere/a.lua").unwrap();
    assert!(!other.starts_with_path(&base));
}

#[test]
fn file_uri_strip_path_prefix() {
    let root = FileUri::parse("file:///ws/x.lua").unwrap();
    let err = root.strip_path_prefix(&FileUri::parse("file:///other/x.lua").unwrap());
    assert_eq!(err.unwrap_err().kind, ErrorKind::UriNotAPrefix);

    let base = FileUri::parse("file:///ws/sub.lua").unwrap();
    let full = FileUri::parse("file:///ws/sub.lua").unwrap();
    let stripped = full.strip_path_prefix(&base).unwrap();
    assert_eq!(stripped.as_path(), "");
}

#[test]
fn file_uri_relative_depth_clamps() {
    let root = FileUri::parse("file:///ws/deep/root.lua").unwrap();
    let shallow = FileUri::parse("file:///top.lua").unwrap();
    assert_eq!(shallow.relative_depth(&root), 0);
    let nested = FileUri::parse("file:///ws/deep/a/b.lua").unwrap();
    assert_eq!(nested.relative_depth(&root), 1);
}

#[test]
fn read_range_extracts_lines() {
    let text = "zero\none\ntwo\nthree";
    let range = Range::new(pos(1, 0), pos(2, 3));
    assert_eq!(mooncats::location::read_range(text, &range), "onetwo");
}

#[test]
fn read_range_cuts_first_and_last_line() {
    let text = "abcdef\nmiddle\nuvwxyz";
    let range = Range::new(pos(0, 4), pos(2, 3));
    assert_eq!(mooncats::location::read_range(text, &range), "efmiddleuvw");
}

#[test]
fn read_range_single_line_runs_to_line_end() {
    // On a single-line range the start cut applies and the end offset is
    // never consulted: the cut runs to the end of the line.
    let text = "abcdef";
    let range = Range::new(pos(0, 2), pos(0, 4));
    assert_eq!(mooncats::location::read_range(text, &range), "cdef");
}

#[test]
fn read_range_counts_utf16_units() {
    // The emoji takes two UTF-16 units; cutting between them leaves an
    // unpaired surrogate, decoded as the replacement character.
    let text = "a\u{1F600}b";
    let range = Range::new(pos(0, 2), pos(0, 4));
    assert_eq!(mooncats::location::read_range(text, &range), "\u{FFFD}b");
    let whole = Range::new(pos(0, 0), pos(0, 4));
    assert_eq!(mooncats::location::read_range(text, &whole), "a\u{1F600}b");
}

#[test]
fn read_range_strips_carriage_returns() {
    let text = "one\r\ntwo\r\nthree";
    let range = Range::new(pos(0, 0), pos(1, 3));
    assert_eq!(mooncats::location::read_range(text, &range), "onetwo");
}

#[test]
fn span_empty_has_no_text() {
    let location = mooncats::location::Location {
        file: FileUri::parse("file:///ws/a.lua").unwrap(),
        range: Range::new(pos(0, 0), pos(0, 0)),
    };
    let span = mooncats::location::Span::empty(location);
    assert!(span.is_empty());
    assert_eq!(span.text, "");
}
