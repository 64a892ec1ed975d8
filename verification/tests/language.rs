use sakura_repl::language::{classify, classify_sexp, rewrite, InputClassification, Tag};
use sakura_repl::sexpr::{decode_tokens, Sexp, SexpAtom, SexpToken};

#[test]
fn schema_shortcut() {
    let out = rewrite("(schema)");
    assert_eq!(out, "(drl (Base sakura:attribute))");
}

#[test]
fn known_envelope() {
    assert!(matches!(
        classify("(ddl (CreateDatabase \"test\"))"),
        InputClassification::Envelope(Tag::Ddl)
    ));
    assert!(matches!(
        classify("(drl (Base sakura:attribute))"),
        InputClassification::Envelope(Tag::Drl)
    ));
    assert!(matches!(
        classify("(dcl GetHead)"),
        InputClassification::Envelope(Tag::Dcl)
    ));
    assert!(matches!(
        classify("(scl (Begin (query (Base sakura:attribute)) (limit 3)))"),
        InputClassification::Envelope(Tag::Scl)
    ));
}

#[test]
fn unknown_tag() {
    assert!(
        matches!(classify("(foo bar)"), InputClassification::UnknownTag(ref s) if s == "foo")
    );
}

#[test]
fn malformed_sexp() {
    assert!(matches!(
        classify("(broken"),
        InputClassification::MalformedSexp(_)
    ));
}

#[test]
fn passthrough() {
    let raw = "(ddl (CreateDatabase \"test\"))";
    assert_eq!(rewrite(raw), raw);
}

#[test]
fn tag_names_round_trip() {
    for t in [Tag::Drl, Tag::Ddl, Tag::Dml, Tag::Icl, Tag::Dcl, Tag::Scl] {
        assert_eq!(Tag::from_str(t.as_str()), Some(t));
    }
    assert_eq!(Tag::Icl.as_str(), "icl");
    assert_eq!(Tag::from_str("DRL"), None);
    assert_eq!(Tag::from_str(""), None);
}

#[test]
fn malformed_sexp_carries_reader_message() {
    match classify("(broken") {
        InputClassification::MalformedSexp(m) => assert_eq!(m, "1:6: unexpected eof"),
        _ => panic!("expected a syntax error"),
    }
}

#[test]
fn shortcut_is_found_after_trimming() {
    match classify("  (schema)\n") {
        InputClassification::Shortcut(s) => assert_eq!(s, "(drl (Base sakura:attribute))"),
        _ => panic!("expected the shortcut"),
    }
    assert_eq!(rewrite("  (schema)\n"), "(drl (Base sakura:attribute))");
    assert_eq!(rewrite("(schema) x"), "(schema) x");
}

#[test]
fn legacy_inputs() {
    assert!(matches!(classify("GetHead"), InputClassification::Legacy));
    assert!(matches!(classify("(1 2)"), InputClassification::Legacy));
    assert!(matches!(classify("()"), InputClassification::Legacy));
    assert!(matches!(classify("((drl) x)"), InputClassification::Legacy));
}

#[test]
fn quoted_tag_is_still_a_tag() {
    assert!(matches!(classify("(\"dml\" x)"), InputClassification::Envelope(Tag::Dml)));
}

#[test]
fn trailing_data_is_malformed() {
    match classify("(a) b") {
        InputClassification::MalformedSexp(m) => {
            assert_eq!(m, "1:4: unrecognized post-s-expression data")
        }
        _ => panic!("expected a syntax error"),
    }
}

#[test]
fn rewrite_agrees_with_classify() {
    for input in ["(schema)", " (schema) ", "(dcl GetHead)", "(broken", "x"] {
        match classify(input) {
            InputClassification::Shortcut(s) => assert_eq!(rewrite(input), s),
            _ => assert_eq!(rewrite(input), input),
        }
    }
}

fn sym(s: &str) -> SexpAtom {
    SexpAtom::Str { value: s.to_string(), printed: s.to_string() }
}

#[test]
fn tokens_decode_to_a_tree() {
    let tokens = vec![
        SexpToken::Open { len: 2, printed: "(dcl GetHead)".to_string() },
        SexpToken::Leaf(sym("dcl")),
        SexpToken::Leaf(sym("GetHead")),
    ];
    let tree = decode_tokens(&tokens);
    match &tree {
        Sexp::List { items, printed } => {
            assert_eq!(items.len(), 2);
            assert_eq!(printed, "(dcl GetHead)");
            assert!(matches!(&items[1], Sexp::Atom(SexpAtom::Str { value, .. }) if value == "GetHead"));
        }
        _ => panic!("expected a list"),
    }
    assert!(matches!(classify_sexp(&tree), InputClassification::Envelope(Tag::Dcl)));
}

#[test]
fn nested_tokens_decode_in_order() {
    // ((a) 7)
    let tokens = vec![
        SexpToken::Open { len: 2, printed: "((a) 7)".to_string() },
        SexpToken::Open { len: 1, printed: "(a)".to_string() },
        SexpToken::Leaf(sym("a")),
        SexpToken::Leaf(SexpAtom::Int(7)),
    ];
    match decode_tokens(&tokens) {
        Sexp::List { items, .. } => {
            assert_eq!(items.len(), 2);
            assert!(matches!(&items[0], Sexp::List { items: inner, .. } if inner.len() == 1));
            assert!(matches!(&items[1], Sexp::Atom(SexpAtom::Int(7))));
        }
        _ => panic!("expected a list"),
    }
}

#[test]
fn classifying_parsed_shapes() {
    assert!(matches!(classify_sexp(&Sexp::Atom(sym("x"))), InputClassification::Legacy));
    let unknown = Sexp::List { items: vec![Sexp::Atom(sym("foo"))], printed: "(foo)".to_string() };
    assert!(matches!(classify_sexp(&unknown), InputClassification::UnknownTag(ref s) if s == "foo"));
    let numeric = Sexp::List { items: vec![Sexp::Atom(SexpAtom::Int(1))], printed: "(1)".to_string() };
    assert!(matches!(classify_sexp(&numeric), InputClassification::Legacy));
}
