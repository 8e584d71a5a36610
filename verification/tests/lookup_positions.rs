use js_source_scopes::extract_scope_names;
use js_source_scopes::lookup::ScopeIndex;
use js_source_scopes::lookup::ScopeLookupResult;
use js_source_scopes::source::SourceContext;
use js_source_scopes::source::SourcePosition;

use ScopeLookupResult::AnonymousScope;
use ScopeLookupResult::NamedScope;
use ScopeLookupResult::Unknown;

/// Builds the index of a source and looks scopes up by one-based
/// line/column positions, the way a stack-trace frame is attributed.
#[test]
fn resolves_scopes_by_position() {
    let src = "\
const pre = 1;
function namedFn() { return 1; }
class Klass { classMethod() { return 2; } }
const arrowFn = () => { (function () {})(); };
";

    let scopes: Vec<_> = extract_scope_names(src)
        .unwrap()
        .into_iter()
        .map(|(span, name)| (span, name.map(|n| n.render())))
        .collect();
    let index = ScopeIndex::new(scopes).unwrap();

    let ctx = SourceContext::new(src).unwrap();

    // NOTE: browsers use 1-based line/column numbers, while this crate uses
    // 0-based numbers everywhere.
    let lookup = |l: u32, c: u32| {
        let offset = ctx
            .position_to_offset(SourcePosition::new(l - 1, c - 1))
            .unwrap();
        index.lookup(offset)
    };

    assert_eq!(lookup(2, 25), NamedScope("namedFn".into()));
    assert_eq!(lookup(3, 35), NamedScope("Klass.classMethod".into()));
    assert_eq!(lookup(3, 10), NamedScope("new Klass".into()));
    assert_eq!(lookup(4, 20), NamedScope("arrowFn".into()));
    // the immediately-invoked callback has no inferable name
    assert_eq!(lookup(4, 37), AnonymousScope);
    // the first line precedes every scope
    assert_eq!(lookup(1, 5), Unknown);
}
