use js_source_scopes::extract_scope_names;
use js_source_scopes::rslint;
use js_source_scopes::rslint::join_names;
use js_source_scopes::Scopes;
use rslint_parser::SyntaxKind;

fn scope_strs(scopes: Scopes) -> Vec<Option<String>> {
    scopes
        .into_iter()
        .map(|s| s.1.map(|n| n.render()))
        .collect()
}

#[test]
fn extracts_named_fn() {
    let src = r#"
        function fn_decl() {
            return function fn_expr() {};
        }
        "#;
    let scopes = extract_scope_names(src).unwrap();
    let scopes = scope_strs(scopes);

    let expected = [Some("fn_decl".into()), Some("fn_expr".into())];
    assert_eq!(scopes, expected);
}

#[test]
fn extracts_named_class() {
    let src = r#"
        class class_decl {
            constructor() {
                return class class_expr {};
            }
        }
        "#;
    let scopes = extract_scope_names(src).unwrap();
    let scopes = scope_strs(scopes);

    let expected = [Some("new class_decl".into()), Some("new class_expr".into())];
    assert_eq!(scopes, expected);
}

#[test]
fn infer_from_decl() {
    let src = r#"
        var anon_fn = function () {};
        let anon_class = class {};
        const arrow = () => {};
        "#;
    let scopes = extract_scope_names(src).unwrap();
    let scopes = scope_strs(scopes);

    let expected = [
        Some("anon_fn".into()),
        Some("new anon_class".into()),
        Some("arrow".into()),
    ];
    assert_eq!(scopes, expected);
}

#[test]
fn infer_from_assign() {
    let src = r#"
        assigned_fn = function () {};
        deep.assigned.klass = class {};
        "#;
    let scopes = extract_scope_names(src).unwrap();
    let scopes = scope_strs(scopes);

    let expected = [
        Some("assigned_fn".into()),
        Some("new deep.assigned.klass".into()),
    ];
    assert_eq!(scopes, expected);
}

#[test]
fn extract_obj_literal() {
    let src = r#"
        const obj_literal = {
            named_prop: function named_fun() {},
            anon_prop: function () {},
            arrow_prop: () => {},
            method_prop() {},
        };
        "#;
    let scopes = extract_scope_names(src).unwrap();
    let scopes = scope_strs(scopes);

    let expected = [
        Some("obj_literal.named_fun".into()),
        Some("obj_literal.anon_prop".into()),
        Some("obj_literal.arrow_prop".into()),
        Some("obj_literal.method_prop".into()),
    ];
    assert_eq!(scopes, expected);
}

#[test]
fn extract_method_names() {
    let src = r#"
        class class_decl {
            static static_method() {}
            class_method() {}
            #private_method() {}
        }
        "#;
    let scopes = extract_scope_names(src).unwrap();
    let scopes = scope_strs(scopes);

    let expected = [
        Some("new class_decl".into()),
        Some("class_decl.static_method".into()),
        Some("class_decl.class_method".into()),
        Some("class_decl.#private_method".into()),
    ];
    assert_eq!(scopes, expected);
}

#[test]
fn extract_class_getter_setter() {
    let src = r#"
      class A {
        get foo() {}
        set foo(x) {}
      }
    "#;

    let scopes = extract_scope_names(src).unwrap();
    let scopes = scope_strs(scopes);

    let expected = [
        Some("new A".into()),
        Some("get A.foo".into()),
        Some("set A.foo".into()),
    ];
    assert_eq!(scopes, expected);
}

#[test]
fn extract_object_getter_setter() {
    let src = r#"
      a = {
        get foo() {},
        set foo(x) {}
      }
    "#;

    let scopes = extract_scope_names(src).unwrap();
    let scopes = scope_strs(scopes);

    let expected = [Some("get a.foo".into()), Some("set a.foo".into())];
    assert_eq!(scopes, expected);
}

#[test]
fn extract_object_weird_properties() {
    let src = r#"
      a = {
        ["foo" + 123]() {},
        1.7() {},
        "bar"() {},
        1n() {}
      }
    "#;

    let scopes = extract_scope_names(src).unwrap();
    let scopes = scope_strs(scopes);

    let expected = [
        Some("a.<computed>".into()),
        Some("a.<1.7>".into()),
        Some("a.<\"bar\">".into()),
        Some("a.<1n>".into()),
    ];
    assert_eq!(scopes, expected);
}

#[test]
fn extract_named_class_expr() {
    let src = r#"
      a = class B {
         foo() {}
         get bar() {}
      }
    "#;

    let scopes = extract_scope_names(src).unwrap();
    let scopes = scope_strs(scopes);

    let expected = [
        Some("new a.B".into()),
        Some("a.B.foo".into()),
        Some("get a.B.bar".into()),
    ];
    assert_eq!(scopes, expected);
}

#[test]
fn extract_anon_obj_literal() {
    let src = r#"
         ({
            named_prop: function named_fun() {},
            anon_prop: function () {},
            arrow_prop: () => {},
            method_prop() {},
        });
        "#;
    let scopes = extract_scope_names(src).unwrap();
    let scopes = scope_strs(scopes);

    let expected = [
        Some("<object>.named_fun".into()),
        Some("<object>.anon_prop".into()),
        Some("<object>.arrow_prop".into()),
        Some("<object>.method_prop".into()),
    ];
    assert_eq!(scopes, expected);
}

#[test]
fn extract_empty_function() {
    let src = r#"
        (function () {
          return () => {};
        })()
        "#;
    let scopes = extract_scope_names(src).unwrap();
    let scopes = scope_strs(scopes);

    let expected = [None, None];
    assert_eq!(scopes, expected);
}

#[test]
fn extract_nested_iife_objects() {
    // NOTE: This mimicks what react-dom does to transpile JSX children into render tree.
    let src = r#"
        (function () {})({
          children: (function () {})({
            children: (function () {})({
              onSubmitError () {
                throw new Error('wat')
              }
            })
          })
        })
        "#;
    let scopes = extract_scope_names(src).unwrap();
    let scopes = scope_strs(scopes);

    let expected = [
        None,
        Some("<object>.children".into()),
        Some("<object>.children.children".into()),
        Some("<object>.children.children.onSubmitError".into()),
    ];
    assert_eq!(scopes, expected);
}

#[test]
fn extract_computed_properties() {
    let src = r#"
        Klass.prototype[42] = () => {}
        Klass.prototype["method"] = () => {}
        Klass.prototype[method] = () => {}
        Klass.prototype[1 + 1] = () => {};
        "#;
    let scopes = extract_scope_names(src).unwrap();
    let scopes = scope_strs(scopes);

    let expected = [
        Some("Klass.prototype[42]".into()),
        Some("Klass.prototype[\"method\"]".into()),
        Some("Klass.prototype[method]".into()),
        Some("Klass.prototype[<computed>]".into()),
    ];
    assert_eq!(scopes, expected);
}

#[test]
fn extract_fn_inside_object_getter() {
    // An object-literal accessor is transparent to the ancestor walk: the
    // function returned from the getter's body is named by the assignment
    // target.  A class accessor holds its body like a method and stops the
    // walk, so the same function there stays anonymous.
    let src = r#"
      a = {
        get foo() { return function () {}; }
      }
    "#;
    let scopes = extract_scope_names(src).unwrap();
    let scopes = scope_strs(scopes);
    let expected = [Some("get a.foo".into()), Some("a".into())];
    assert_eq!(scopes, expected);

    let src = r#"
      class A {
        get foo() { return function () {}; }
      }
    "#;
    let scopes = extract_scope_names(src).unwrap();
    let scopes = scope_strs(scopes);
    let expected = [Some("new A".into()), Some("get A.foo".into()), None];
    assert_eq!(scopes, expected);
}

#[test]
fn extract_this_member_assignment() {
    let src = r#"
        this.handler = function () {};
        this.nested.deep = () => {};
        "#;
    let scopes = extract_scope_names(src).unwrap();
    let scopes = scope_strs(scopes);

    let expected = [
        Some("this.handler".into()),
        Some("this.nested.deep".into()),
    ];
    assert_eq!(scopes, expected);
}

#[test]
fn kind_constants_match_parser() {
    assert_eq!(rslint::RAW_KIND_FN_DECL, SyntaxKind::FN_DECL as u16);
    assert_eq!(rslint::RAW_KIND_FN_EXPR, SyntaxKind::FN_EXPR as u16);
    assert_eq!(rslint::RAW_KIND_ARROW_EXPR, SyntaxKind::ARROW_EXPR as u16);
    assert_eq!(rslint::RAW_KIND_CLASS_DECL, SyntaxKind::CLASS_DECL as u16);
    assert_eq!(rslint::RAW_KIND_CLASS_EXPR, SyntaxKind::CLASS_EXPR as u16);
    assert_eq!(rslint::RAW_KIND_CLASS_BODY, SyntaxKind::CLASS_BODY as u16);
    assert_eq!(rslint::RAW_KIND_METHOD, SyntaxKind::METHOD as u16);
    assert_eq!(rslint::RAW_KIND_GETTER, SyntaxKind::GETTER as u16);
    assert_eq!(rslint::RAW_KIND_SETTER, SyntaxKind::SETTER as u16);
    assert_eq!(rslint::RAW_KIND_CONSTRUCTOR, SyntaxKind::CONSTRUCTOR as u16);
    assert_eq!(rslint::RAW_KIND_LITERAL_PROP, SyntaxKind::LITERAL_PROP as u16);
    assert_eq!(rslint::RAW_KIND_ASSIGN_EXPR, SyntaxKind::ASSIGN_EXPR as u16);
    assert_eq!(rslint::RAW_KIND_DECLARATOR, SyntaxKind::DECLARATOR as u16);
    assert_eq!(
        rslint::RAW_KIND_SINGLE_PATTERN,
        SyntaxKind::SINGLE_PATTERN as u16
    );
    assert_eq!(rslint::RAW_KIND_OBJECT_EXPR, SyntaxKind::OBJECT_EXPR as u16);
    assert_eq!(rslint::RAW_KIND_DOT_EXPR, SyntaxKind::DOT_EXPR as u16);
    assert_eq!(
        rslint::RAW_KIND_BRACKET_EXPR,
        SyntaxKind::BRACKET_EXPR as u16
    );
    assert_eq!(rslint::RAW_KIND_NAME, SyntaxKind::NAME as u16);
    assert_eq!(rslint::RAW_KIND_NAME_REF, SyntaxKind::NAME_REF as u16);
    assert_eq!(
        rslint::RAW_KIND_PRIVATE_NAME,
        SyntaxKind::PRIVATE_NAME as u16
    );
    assert_eq!(rslint::RAW_KIND_LITERAL, SyntaxKind::LITERAL as u16);
    assert_eq!(rslint::RAW_KIND_THIS_EXPR, SyntaxKind::THIS_EXPR as u16);
    assert_eq!(
        rslint::RAW_KIND_COMPUTED_PROPERTY_NAME,
        SyntaxKind::COMPUTED_PROPERTY_NAME as u16
    );
}

#[test]
fn parse_error_is_reported() {
    let src = "var x = ;";
    let err = extract_scope_names(src).unwrap_err();
    let rendered = err.message();
    assert!(rendered.contains(':'));
}

#[test]
fn join_names_joins_reversed() {
    let names: Vec<String> = vec!["c".into(), "b".into(), "a".into()];
    assert_eq!(
        join_names(&names),
        Some("a.b.c".into())
    );
    let empty: Vec<String> = vec![];
    assert_eq!(join_names(&empty), None);
}
