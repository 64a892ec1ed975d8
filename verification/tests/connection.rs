use sakura_repl::connection::{
    decode_reply, error_parts, format_response, format_with_table, is_displayable, is_unix_socket,
    normalize_sexp_spacing, parse_response, response_from_sexp, ResponseError, ResponseMeta,
    SchemaField, ServerResponse,
};
use sakura_repl::sexpr::{Sexp, SexpAtom};

fn meta() -> ResponseMeta {
    ResponseMeta { db_hash: "abc".to_string(), db_name: "db".to_string(), branch: "main".to_string() }
}

fn pair(k: &str, v: &str) -> (String, String) {
    (k.to_string(), v.to_string())
}

fn field(attr: &str) -> SchemaField {
    SchemaField { attr: attr.to_string(), domain: "string".to_string() }
}

#[test]
fn unix_socket_addresses() {
    assert!(is_unix_socket("/tmp/sakura.sock"));
    assert!(is_unix_socket("sakura.sock"));
    assert!(is_unix_socket("./s"));
    assert!(!is_unix_socket("127.0.0.1:7777"));
    assert!(!is_unix_socket("sock"));
    assert!(!is_unix_socket(".soc"));
}

#[test]
fn quotes_get_a_space_before_them() {
    // A closing quote after a word character gets a space too.
    assert_eq!(normalize_sexp_spacing("(message\"hi\")"), "(message \"hi \")");
    assert_eq!(normalize_sexp_spacing("(message\"hi \")"), "(message \"hi \")");
    assert_eq!(normalize_sexp_spacing("(\"a\" \"b\")"), "(\"a \" \"b \")");
    assert_eq!(normalize_sexp_spacing("(a\\\"b)"), "(a\\\"b)");
    assert_eq!(normalize_sexp_spacing("\"x\""), "\"x \"");
    assert_eq!(normalize_sexp_spacing("(\"\")"), "(\" \")");
    assert_eq!(normalize_sexp_spacing(""), "");
}

#[test]
fn ok_reply() {
    let r = parse_response("(ok (message \"Database created\") (db_hash h1) (db_name d1) (branch b1))")
        .unwrap();
    match &r {
        ServerResponse::Success { message, meta } => {
            assert_eq!(message, "Database created ");
            assert_eq!(meta.db_hash, "h1");
            assert_eq!(meta.db_name, "d1");
            assert_eq!(meta.branch, "b1");
        }
        _ => panic!("expected ok"),
    }
    assert_eq!(format_response(&r), "OK  Database created ");
    assert!(error_parts(&r).is_none());
}

#[test]
fn ok_reply_with_defaults() {
    let r = parse_response("(ok)").unwrap();
    match &r {
        ServerResponse::Success { message, meta } => {
            assert_eq!(message, "(message field missing)");
            assert_eq!(meta.db_hash, "");
            assert_eq!(meta.db_name, "");
            assert_eq!(meta.branch, "--");
        }
        _ => panic!("expected ok"),
    }
}

#[test]
fn ok_reply_with_list_message() {
    let r = parse_response("(ok (message (a b c)))").unwrap();
    match &r {
        ServerResponse::Success { message, .. } => assert_eq!(message, "(list with 3 items)"),
        _ => panic!("expected ok"),
    }
}

#[test]
fn integer_and_float_atoms_read_as_text() {
    let r = parse_response("(ok (message -42) (db_name 1.5))").unwrap();
    match &r {
        ServerResponse::Success { message, meta } => {
            assert_eq!(message, "-42");
            assert_eq!(meta.db_name, "1.5");
        }
        _ => panic!("expected ok"),
    }
}

#[test]
fn error_reply_is_split_at_first_colon_space() {
    let r = parse_response("(error (message \"ParseError: bad token: x\"))").unwrap();
    match &r {
        ServerResponse::Error { kind, message, .. } => {
            assert_eq!(kind, "ParseError");
            assert_eq!(message, "bad token: x ");
        }
        _ => panic!("expected error"),
    }
    assert_eq!(error_parts(&r), Some(("ParseError", "bad token: x ")));
    assert_eq!(format_response(&r), "ParseError: bad token: x ");
}

#[test]
fn error_reply_without_kind() {
    let r = parse_response("(error (message oops))").unwrap();
    match &r {
        ServerResponse::Error { kind, message, .. } => {
            assert_eq!(kind, "Error");
            assert_eq!(message, "oops");
        }
        _ => panic!("expected error"),
    }
}

#[test]
fn error_reply_without_message_shows_fields() {
    let r = parse_response("(error (code 7) (detail \"a b\"))").unwrap();
    match &r {
        ServerResponse::Error { kind, message, .. } => {
            // The text made up for the missing message is split like any other.
            assert_eq!(kind, "(message field malformed or missing; full response");
            assert_eq!(message, "[(code 7), (detail \"a b \")])");
        }
        _ => panic!("expected error"),
    }
}

#[test]
fn relation_reply() {
    let line = "(relation (name people) (schema ((name string) (age int))) \
                (rows (((name ann) (age 30)) ((age 41) (name bob)) junk)) \
                (row_count 2) (truncated true) (db_hash h) (db_name d) (branch main))";
    let r = parse_response(line).unwrap();
    match &r {
        ServerResponse::Relation { name, schema, rows, row_count, truncated, meta } => {
            assert_eq!(name, "people");
            assert_eq!(schema.len(), 2);
            assert_eq!(schema[0].attr, "name");
            assert_eq!(schema[0].domain, "string");
            assert_eq!(schema[1].attr, "age");
            assert_eq!(schema[1].domain, "int");
            assert_eq!(rows.len(), 2);
            assert_eq!(rows[0], vec![pair("name", "ann"), pair("age", "30")]);
            assert_eq!(rows[1], vec![pair("age", "41"), pair("name", "bob")]);
            assert_eq!(*row_count, 2);
            assert!(*truncated);
            assert_eq!(meta.branch, "main");
        }
        _ => panic!("expected relation"),
    }
    let expected = "people\n\
                    ┌──────┬─────┐\n\
                    │ name │ age │\n\
                    ├──────┼─────┤\n\
                    │ ann  │ 30  │\n\
                    │ bob  │ 41  │\n\
                    └──────┴─────┘\n\
                    (2 rows, truncated)";
    assert_eq!(format_response(&r), expected);
}

#[test]
fn relation_row_count_parsing() {
    let count = |v: &str| match parse_response(&format!("(relation (row_count {}))", v)).unwrap() {
        ServerResponse::Relation { row_count, truncated, .. } => {
            assert!(!truncated);
            row_count
        }
        _ => panic!("expected relation"),
    };
    assert_eq!(count("17"), 17);
    assert_eq!(count("+5"), 5);
    // A quoted count picks up the space put before its closing quote.
    assert_eq!(count("\"5\""), 0);
    assert_eq!(count("-3"), 0);
    assert_eq!(count("4294967295"), 4294967295);
    assert_eq!(count("4294967296"), 0);
    assert_eq!(count("abc"), 0);
}

#[test]
fn empty_relation_has_no_table() {
    let r = parse_response("(relation (name t))").unwrap();
    assert_eq!(format_response(&r), "t\n(0 rows)");
}

#[test]
fn cursor_reply() {
    let line = "(cursor (id 0123456789abcdef) (rows (((k v)))) (row_count 1) (has_more true))";
    let r = parse_response(line).unwrap();
    match &r {
        ServerResponse::Cursor { cursor_id, rows, row_count, has_more, meta } => {
            assert_eq!(cursor_id, "0123456789abcdef");
            assert_eq!(rows, &vec![vec![pair("k", "v")]]);
            assert_eq!(*row_count, 1);
            assert!(*has_more);
            assert_eq!(meta.branch, "--");
        }
        _ => panic!("expected cursor"),
    }
    let expected = "┌───┐\n│ k │\n├───┤\n│ v │\n└───┘\n(1 rows, cursor: 01234567, has_more: true)";
    assert_eq!(format_response(&r), expected);
}

#[test]
fn short_cursor_without_rows() {
    let r = ServerResponse::Cursor {
        cursor_id: "abc".to_string(),
        rows: vec![],
        row_count: 0,
        has_more: false,
        meta: meta(),
    };
    assert_eq!(format_response(&r), "(0 rows, cursor: abc, has_more: false)");
}

#[test]
fn missing_cell_shows_question_mark() {
    let r = ServerResponse::Relation {
        name: "t".to_string(),
        schema: vec![field("a"), field("b")],
        rows: vec![vec![pair("a", "1")]],
        row_count: 1,
        truncated: false,
        meta: meta(),
    };
    let expected = "t\n┌───┬───┐\n│ a │ b │\n├───┼───┤\n│ 1 │ ? │\n└───┴───┘\n(1 rows)";
    assert_eq!(format_response(&r), expected);
}

#[test]
fn wide_tables_and_split_ids_are_not_displayable() {
    let schema: Vec<SchemaField> = (0..34).map(|i| field(&format!("c{}", i))).collect();
    let wide = ServerResponse::Relation {
        name: "t".to_string(),
        schema,
        rows: vec![],
        row_count: 0,
        truncated: false,
        meta: meta(),
    };
    assert!(!is_displayable(&wide));
    let schema: Vec<SchemaField> = (0..33).map(|i| field(&format!("c{}", i))).collect();
    let fits = ServerResponse::Relation {
        name: "t".to_string(),
        schema,
        rows: vec![],
        row_count: 0,
        truncated: false,
        meta: meta(),
    };
    assert!(is_displayable(&fits));
    let split = ServerResponse::Cursor {
        cursor_id: "abcdefgé12".to_string(),
        rows: vec![],
        row_count: 0,
        has_more: false,
        meta: meta(),
    };
    assert!(!is_displayable(&split));
    let whole = ServerResponse::Cursor {
        cursor_id: "abcdeé12".to_string(),
        rows: vec![],
        row_count: 0,
        has_more: false,
        meta: meta(),
    };
    assert!(is_displayable(&whole));
    assert_eq!(format_response(&whole), "(0 rows, cursor: abcdeé1, has_more: false)");
}

#[test]
fn reply_errors() {
    let msg = |line: &str| parse_response(line).unwrap_err().message();
    assert_eq!(msg("(ok"), "1:2: unexpected eof");
    assert_eq!(msg("hello"), "expected list");
    assert_eq!(msg("()"), "missing tag");
    assert_eq!(msg("((ok))"), "missing tag");
    assert_eq!(msg("(frobnicate)"), "unknown response tag: frobnicate");
    assert!(matches!(parse_response("()"), Err(ResponseError::MissingTag)));
}

#[test]
fn reply_line_is_trimmed() {
    let r = decode_reply("  (ok (message hi))\r\n").unwrap();
    assert_eq!(format_response(&r), "OK  hi");
}

#[test]
fn error_text_is_shown_as_sent() {
    let raw = "Kind: message: with colon ";
    let r = parse_response(&format!("(error (message \"{}\"))", raw)).unwrap();
    assert_eq!(format_response(&r), raw);
}

#[test]
fn response_from_a_parsed_reply() {
    let sym = |s: &str| Sexp::Atom(SexpAtom::Str { value: s.to_string(), printed: s.to_string() });
    let message = Sexp::List { items: vec![sym("message"), Sexp::Atom(SexpAtom::Int(5))], printed: "(message 5)".to_string() };
    let reply = Sexp::List { items: vec![sym("ok"), message], printed: "(ok (message 5))".to_string() };
    match response_from_sexp(&reply).unwrap() {
        ServerResponse::Success { message, meta } => {
            assert_eq!(message, "5");
            assert_eq!(meta.branch, "--");
        }
        _ => panic!("expected ok"),
    }
    assert!(matches!(response_from_sexp(&sym("ok")), Err(ResponseError::ExpectedList)));
}

#[test]
fn formatting_around_a_table() {
    let rel = ServerResponse::Relation {
        name: "people".to_string(),
        schema: vec![field("name")],
        rows: vec![],
        row_count: 2,
        truncated: false,
        meta: meta(),
    };
    assert_eq!(format_with_table(&rel, "T\n"), "people\nT\n(2 rows)");
    let cur = ServerResponse::Cursor {
        cursor_id: "0123456789".to_string(),
        rows: vec![],
        row_count: 1,
        has_more: true,
        meta: meta(),
    };
    assert_eq!(format_with_table(&cur, ""), "(1 rows, cursor: 01234567, has_more: true)");
    let ok = ServerResponse::Success { message: "m".to_string(), meta: meta() };
    assert_eq!(format_with_table(&ok, "ignored"), "OK  m");
}

#[test]
fn spacing_quotes_twice_is_spacing_once() {
    for s in ["(message\"hi\")", "(\"\")", "a\\\"b\"c", "\"x\" \"y\"", "", "(ok)"] {
        let once = normalize_sexp_spacing(s);
        assert_eq!(normalize_sexp_spacing(&once), once, "{:?}", s);
    }
}
