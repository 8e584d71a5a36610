use js_source_scopes::extract_scope_names;
use js_source_scopes::lookup::ScopeLookupResult;
use js_source_scopes::name_resolver::NameResolver;
use js_source_scopes::scope_name::ScopeName;
use js_source_scopes::scope_name::SourceSpan;
use js_source_scopes::smcache::SmCache;
use js_source_scopes::source::SourceContext;
use js_source_scopes::source::SourcePosition;

fn resolve_original_scopes(
    minified: &str,
    map: &str,
    scopes: Vec<(SourceSpan, Option<ScopeName>)>,
) -> Vec<(SourceSpan, Option<String>, Option<String>)> {
    let ctx = SourceContext::new(minified).unwrap();

    let sm = sourcemap::decode_slice(map.as_bytes()).unwrap();

    let resolver = NameResolver::new(&ctx, &sm);

    let resolved_scopes = scopes.into_iter().map(|(range, name)| {
        let minified_name = name.as_ref().map(|n| n.render());
        let original_name = name.map(|n| resolver.resolve_name(&n));

        (range, minified_name, original_name)
    });
    resolved_scopes.collect()
}

/// A minified source whose source map renames the function `t` back to
/// `abcd`: one token at line 0, column 9 carrying the original name.
const SIMPLE_MINIFIED: &str = "function t(){}";
const SIMPLE_MAP: &str =
    r#"{"version":3,"sources":["original.js"],"names":["abcd"],"mappings":"SAAAA"}"#;

#[test]
fn resolves_scopes_simple() {
    let scopes = extract_scope_names(SIMPLE_MINIFIED).unwrap();

    let resolved_scopes = resolve_original_scopes(SIMPLE_MINIFIED, SIMPLE_MAP, scopes);

    assert_eq!(
        resolved_scopes,
        [(
            SourceSpan { start: 0, end: 14 },
            Some("t".into()),
            Some("abcd".into())
        )]
    );
}

/// The map records only one token, at column 0.  The components of
/// `Foo.prototype.bar` after the first must not be resolved through that
/// preceding token: a mismatched token keeps the minified text, so the
/// resolved name is not `Foo.Foo.Foo`.
#[test]
fn should_not_resolve_mismatch() {
    let minified = "Foo.prototype.bar = function() {};";
    let map = r#"{"version":3,"sources":["a.js"],"names":["Foo"],"mappings":"AAAAA"}"#;

    let scopes = extract_scope_names(minified).unwrap();

    let resolved_scopes = resolve_original_scopes(minified, map, scopes);

    assert_eq!(resolved_scopes[0].2, Some("Foo.prototype.bar".into()));
}

/// The map records the token one column before the identifier, at the
/// preceding dot.  The off-by-one tolerance still accepts it.
#[test]
fn should_resolve_exactish() {
    let minified = "a.onFailure = function() {};";
    let map = r#"{"version":3,"sources":["a.js"],"names":["onFailure"],"mappings":"CAAAA"}"#;

    let scopes = extract_scope_names(minified).unwrap();

    let resolved_scopes = resolve_original_scopes(minified, map, scopes);

    assert_eq!(resolved_scopes[0].2, Some("a.onFailure".into()));
}

#[test]
fn smcache_resolves_token_locations() {
    let cache = SmCache::new(SIMPLE_MINIFIED, SIMPLE_MAP).unwrap();

    let loc = cache.lookup(SourcePosition::new(0, 9)).unwrap();
    assert_eq!(loc.file.as_deref(), Some("original.js"));
    assert_eq!(loc.line, 0);
    assert_eq!(loc.scope, ScopeLookupResult::NamedScope("abcd".into()));

    // a position after the only token still resolves to it
    let loc = cache.lookup(SourcePosition::new(0, 13)).unwrap();
    assert_eq!(loc.scope, ScopeLookupResult::NamedScope("abcd".into()));
}

#[test]
fn smcache_fails_on_invalid_map() {
    assert!(SmCache::new(SIMPLE_MINIFIED, "not a sourcemap").is_err());
}

/// Span containment: every extracted span lies within the source.
#[test]
fn extracted_spans_are_contained() {
    let src = r#"
        function outer() {
            const inner = () => {};
            obj.method = function named() { return class K {}; };
        }
        "#;
    let scopes = extract_scope_names(src).unwrap();
    assert!(!scopes.is_empty());
    for (span, _) in scopes {
        assert!(span.start <= span.end);
        assert!((span.end as usize) <= src.len());
    }
}

/// Running the extraction twice on the same input yields the same list.
#[test]
fn extraction_is_reproducible() {
    let src = r#"
        var a = function () {};
        class B { m() {} }
        c.d[42] = () => {};
        "#;
    let first: Vec<_> = extract_scope_names(src)
        .unwrap()
        .into_iter()
        .map(|(span, name)| (span, name.map(|n| n.render())))
        .collect();
    let second: Vec<_> = extract_scope_names(src)
        .unwrap()
        .into_iter()
        .map(|(span, name)| (span, name.map(|n| n.render())))
        .collect();
    assert_eq!(first, second);
}

/// A map carrying range-mapping tokens cannot be asked for token lookups
/// (the lookup in the map crate underflows on them), so the resolver keeps
/// every minified name as it is — a degradation, not an error or an abort.
#[test]
fn resolver_keeps_text_on_range_mapping_maps() {
    let map = r#"{"version":3,"sources":["original.js"],"names":["abcd"],"mappings":"SAAAA","rangeMappings":"B"}"#;

    let scopes = extract_scope_names(SIMPLE_MINIFIED).unwrap();
    let resolved_scopes = resolve_original_scopes(SIMPLE_MINIFIED, map, scopes);

    assert_eq!(resolved_scopes[0].1, Some("t".into()));
    assert_eq!(resolved_scopes[0].2, Some("t".into()));
}

/// A name made only of interpolations resolves to itself, whatever the map.
#[test]
fn resolver_keeps_interpolations() {
    let ctx = SourceContext::new(SIMPLE_MINIFIED).unwrap();
    let sm = sourcemap::decode_slice(SIMPLE_MAP.as_bytes()).unwrap();
    let resolver = NameResolver::new(&ctx, &sm);

    let mut name = ScopeName::new();
    name.push_back(js_source_scopes::scope_name::NameComponent::interp("new "));
    name.push_back(js_source_scopes::scope_name::NameComponent::interp("<object>."));
    let resolved = resolver.resolve_name(&name);
    assert_eq!(resolved, "new <object>.");
    assert!(resolved.len() >= "new ".len() + "<object>.".len());
}
