//! Server replies: their shape, how they are read from one reply line, and
//! how they are rendered as text for the REPL.

use vstd::prelude::*;
use ascii_table::AsciiTable;
use crate::sexpr::{
    atom_string, atom_string_debug, atom_text, atom_text_or_summary, printed, push_printed,
    read_sexp, sexp_read, Sexp, SexpAtom, TreeV,
};
use crate::text::{
    chars_of, char_utf8_width, colon_space_from, concat, contains_char, ends_with, is_whitespace, is_ws, join,
    owned, has_suffix, parse_u32, parse_u32_str, push_decimal, push_decimal_signed, push_range, decimal,
    decimal_signed, split_colon_space, split_once_colon_space, str_eq, trim, trim_str, utf8_len, lemma_join_push,
    utf8_width,
};

verus! {

/// Metadata common to every server response.
#[derive(Debug, Clone)]
pub struct ResponseMeta {
    pub db_hash: String,
    pub db_name: String,
    pub branch: String,
}

/// A reply of the server.
#[derive(Debug)]
pub enum ServerResponse {
    Relation {
        name: String,
        schema: Vec<SchemaField>,
        rows: Vec<Vec<(String, String)>>,
        row_count: u32,
        truncated: bool,
        meta: ResponseMeta,
    },
    Success { message: String, meta: ResponseMeta },
    Error { kind: String, message: String, meta: ResponseMeta },
    Cursor {
        cursor_id: String,
        rows: Vec<Vec<(String, String)>>,
        row_count: u32,
        has_more: bool,
        meta: ResponseMeta,
    },
}

/// One attribute of a relation's schema.
#[derive(Debug)]
pub struct SchemaField {
    pub attr: String,
    pub domain: String,
}

/// A pair of texts: a key and its value, or an attribute and its domain.
pub type PairV = (Seq<char>, Seq<char>);

/// The value of response metadata.
pub struct MetaV {
    pub db_hash: Seq<char>,
    pub db_name: Seq<char>,
    pub branch: Seq<char>,
}

/// The value of a server response.
pub enum ResponseV {
    Relation {
        name: Seq<char>,
        schema: Seq<PairV>,
        rows: Seq<Seq<PairV>>,
        row_count: u32,
        truncated: bool,
        meta: MetaV,
    },
    Success { message: Seq<char>, meta: MetaV },
    Error { kind: Seq<char>, message: Seq<char>, meta: MetaV },
    Cursor {
        cursor_id: Seq<char>,
        rows: Seq<Seq<PairV>>,
        row_count: u32,
        has_more: bool,
        meta: MetaV,
    },
}

impl View for ResponseMeta {
    type V = MetaV;

    open spec fn view(&self) -> MetaV {
        MetaV { db_hash: self.db_hash@, db_name: self.db_name@, branch: self.branch@ }
    }
}

/// The values of a row of key-value pairs.
pub open spec fn pairs_view(row: Seq<(String, String)>) -> Seq<PairV> {
    Seq::new(row.len(), |i: int| (row[i].0@, row[i].1@))
}

/// The values of a sequence of rows.
pub open spec fn rows_view(rows: Seq<Vec<(String, String)>>) -> Seq<Seq<PairV>> {
    Seq::new(rows.len(), |i: int| pairs_view(rows[i]@))
}

/// The values of a schema, as (attribute, domain) pairs.
pub open spec fn schema_view(schema: Seq<SchemaField>) -> Seq<PairV> {
    Seq::new(schema.len(), |i: int| (schema[i].attr@, schema[i].domain@))
}

impl View for ServerResponse {
    type V = ResponseV;

    open spec fn view(&self) -> ResponseV {
        match self {
            ServerResponse::Relation { name, schema, rows, row_count, truncated, meta } =>
                ResponseV::Relation {
                name: name@,
                schema: schema_view(schema@),
                rows: rows_view(rows@),
                row_count: *row_count,
                truncated: *truncated,
                meta: meta@,
            },
            ServerResponse::Success { message, meta } => ResponseV::Success {
                message: message@,
                meta: meta@,
            },
            ServerResponse::Error { kind, message, meta } => ResponseV::Error {
                kind: kind@,
                message: message@,
                meta: meta@,
            },
            ServerResponse::Cursor { cursor_id, rows, row_count, has_more, meta } =>
                ResponseV::Cursor {
                cursor_id: cursor_id@,
                rows: rows_view(rows@),
                row_count: *row_count,
                has_more: *has_more,
                meta: meta@,
            },
        }
    }
}

/// The metadata of a response value.
pub open spec fn meta_of_response(r: ResponseV) -> MetaV {
    match r {
        ResponseV::Relation { meta, .. } => meta,
        ResponseV::Success { meta, .. } => meta,
        ResponseV::Error { meta, .. } => meta,
        ResponseV::Cursor { meta, .. } => meta,
    }
}

impl ServerResponse {
    /// The metadata every response carries.
    pub fn meta(&self) -> (r: &ResponseMeta)
        ensures
            r@ == meta_of_response(self@),
    {
        match self {
            ServerResponse::Relation { meta, .. }
            | ServerResponse::Success { meta, .. }
            | ServerResponse::Error { meta, .. }
            | ServerResponse::Cursor { meta, .. } => meta,
        }
    }
}

/// The kind and message of an error response; `None` for any other response.
pub fn error_parts(resp: &ServerResponse) -> (r: Option<(&str, &str)>)
    ensures
        r is Some <==> resp@ is Error,
        r matches Some((k, m)) ==> k@ == resp@->Error_kind && m@ == resp@->Error_message,
{
    match resp {
        ServerResponse::Error { kind, message, .. } => Some((kind.as_str(), message.as_str())),
        _ => None,
    }
}

/// Determines whether `addr` looks like a Unix socket path (contains `/` or
/// ends with `.sock`) versus a TCP `host:port` address.
pub fn is_unix_socket(addr: &str) -> (r: bool)
    ensures
        r == (addr@.contains('/') || has_suffix(addr@, ".sock"@)),
{
    contains_char(addr, '/') || ends_with(addr, ".sock")
}

// ---------------------------------------------------------------------------
// Reading a reply
// ---------------------------------------------------------------------------

/// Whether a `"` after `prev` needs a space in between for the reader to see
/// the quote as the start of a new atom.
pub open spec fn needs_space_before_quote(prev: char) -> bool {
    prev != '(' && prev != ')' && prev != '\\' && !is_ws(prev)
}

/// `s` with a space inserted before any `"` that directly follows a character
/// other than `(`, `)`, `\` or whitespace.
pub open spec fn normalized_spacing(s: Seq<char>) -> Seq<char>
    decreases s.len(),
{
    if s.len() == 0 {
        seq![]
    } else {
        let n = normalized_spacing(s.drop_last());
        if s.last() == '"' && s.len() >= 2 && needs_space_before_quote(s[s.len() - 2]) {
            n.push(' ').push('"')
        } else {
            n.push(s.last())
        }
    }
}

/// Insert a space before any `"` that is not preceded by a sexp delimiter.
/// OCaml's Sexplib serialises atoms and quoted strings without an intervening
/// space, but the `sexp` crate's parser doesn't treat `"` as a token boundary.
pub fn normalize_sexp_spacing(s: &str) -> (r: String)
    ensures
        r@ == normalized_spacing(s@),
{
    let cs = chars_of(s);
    let mut out = String::new();
    let mut i: usize = 0;
    while i < cs.len()
        invariant
            i <= cs.len(),
            cs@ == s@,
            out@ == normalized_spacing(cs@.take(i as int)),
        decreases cs.len() - i,
    {
        let ch = cs[i];
        proof {
            let cur = cs@.take(i + 1);
            assert(cur.drop_last() == cs@.take(i as int));
            assert(cur.last() == ch);
            if i > 0 {
                assert(cur[cur.len() - 2] == cs@[i - 1]);
            }
        }
        if ch == '"' && i > 0 {
            let p = cs[i - 1];
            if p != '(' && p != ')' && p != '\\' && !is_whitespace(p) {
                out.push(' ');
            }
        }
        out.push(ch);
        i = i + 1;
    }
    proof {
        assert(cs@.take(cs@.len() as int) == cs@);
    }
    out
}

/// Spacing `s` followed by `c`: the spacing of `s`, then `c`, with a space
/// before it when it is a quote that needs one.
proof fn lemma_normalized_push(s: Seq<char>, c: char)
    ensures
        normalized_spacing(s.push(c)) == normalized_spacing(s) + if c == '"' && s.len() > 0
            && needs_space_before_quote(s.last()) {
            seq![' ', '"']
        } else {
            seq![c]
        },
{
    let t = s.push(c);
    let n = normalized_spacing(s);
    assert(t.drop_last() =~= s);
    assert(t.last() == c);
    if s.len() > 0 {
        assert(t[t.len() - 2] == s.last());
    }
    assert(n.push(' ').push('"') =~= n + seq![' ', '"']);
    assert(n.push(c) =~= n + seq![c]);
}

/// The spacing of a text ends with the text's last character.
proof fn lemma_normalized_last(s: Seq<char>)
    ensures
        s.len() == 0 ==> normalized_spacing(s).len() == 0,
        s.len() > 0 ==> normalized_spacing(s).len() > 0 && normalized_spacing(s).last()
            == s.last(),
{
}

/// Spacing quotes apart twice is spacing them once: after the first pass no
/// quote needs a space any more.
pub proof fn law_normalize_spacing_idempotent(s: Seq<char>)
    ensures
        normalized_spacing(normalized_spacing(s)) == normalized_spacing(s),
    decreases s.len(),
{
    if s.len() > 0 {
        let p = s.drop_last();
        let c = s.last();
        assert(s =~= p.push(c));
        law_normalize_spacing_idempotent(p);
        lemma_normalized_push(p, c);
        lemma_normalized_last(p);
        let np = normalized_spacing(p);
        lemma_normalized_last(np);
        if c == '"' && p.len() > 0 && needs_space_before_quote(p.last()) {
            assert(normalized_spacing(s) =~= np.push(' ').push('"'));
            lemma_normalized_push(np, ' ');
            lemma_normalized_push(np.push(' '), '"');
            assert(is_ws(' '));
            assert(np.push(' ').last() == ' ');
            assert(normalized_spacing(np.push(' ')) =~= np.push(' '));
            assert(normalized_spacing(np.push(' ').push('"')) =~= np.push(' ').push('"'));
        } else {
            assert(normalized_spacing(s) =~= np.push(c));
            lemma_normalized_push(np, c);
            assert(normalized_spacing(np.push(c)) =~= np.push(c));
        }
    }
}

/// The values of a sequence of expressions.
pub open spec fn trees(v: Seq<Sexp>) -> Seq<TreeV> {
    Seq::new(v.len(), |i: int| v[i]@)
}

/// The items of a list expression are the values of its item vector.
proof fn lemma_list_items(t: Sexp)
    requires
        t is List,
    ensures
        t@->List_0 == trees(t->items@),
{
    assert(t@->List_0 =~= trees(t->items@));
}

/// Whether `t` is a two-item list whose first item is an atom with text `key`.
pub open spec fn is_entry(t: TreeV, key: Seq<char>) -> bool {
    t matches TreeV::List(p, _) && p.len() == 2 && atom_text(p[0]) == Some(key)
}

/// The value of the first `(key value)` entry of `items` at or after `i`.
pub open spec fn field_from(items: Seq<TreeV>, i: int, key: Seq<char>) -> Option<TreeV>
    decreases items.len() - i,
{
    if i < 0 || i >= items.len() {
        None
    } else if is_entry(items[i], key) {
        Some(items[i]->List_0[1])
    } else {
        field_from(items, i + 1, key)
    }
}

/// The value for `key` in a plist-style list `((key val) ...)`.
pub open spec fn field(items: Seq<TreeV>, key: Seq<char>) -> Option<TreeV> {
    field_from(items, 0, key)
}

/// The text of the atom stored under `key`, if there is one.
pub open spec fn field_text(items: Seq<TreeV>, key: Seq<char>) -> Option<Seq<char>> {
    match field(items, key) {
        Some(v) => atom_text(v),
        None => None,
    }
}

/// `o`'s text, or `d` when there is none.
pub open spec fn text_or(o: Option<Seq<char>>, d: Seq<char>) -> Seq<char> {
    match o {
        Some(t) => t,
        None => d,
    }
}

/// Whether `t` is an atom whose text is `key`.
fn atom_is(t: &Sexp, key: &str) -> (r: bool)
    ensures
        r == (atom_text(t@) == Some(key@)),
{
    match atom_string(t) {
        Some(s) => str_eq(s.as_str(), key),
        None => false,
    }
}

/// Find the value for `key` in the plist-style items `items[start..]`.
fn get_field<'a>(items: &'a Vec<Sexp>, start: usize, key: &str) -> (r: Option<&'a Sexp>)
    requires
        start <= items.len(),
    ensures
        match r {
            Some(v) => field(trees(items@).skip(start as int), key@) == Some(v@),
            None => field(trees(items@).skip(start as int), key@) is None,
        },
{
    let ghost rest = trees(items@).skip(start as int);
    let mut i = start;
    while i < items.len()
        invariant
            start <= i <= items.len(),
            rest == trees(items@).skip(start as int),
            field(rest, key@) == field_from(rest, i - start, key@),
        decreases items.len() - i,
    {
        let item = &items[i];
        proof {
            assert(rest[i - start] == item@);
        }
        if let Sexp::List { items: pair, .. } = item {
            proof {
                lemma_list_items(*item);
            }
            if pair.len() == 2 && atom_is(&pair[0], key) {
                proof {
                    assert(item@->List_0[1] == pair@[1]@);
                }
                return Some(&pair[1]);
            }
        }
        i = i + 1;
    }
    None
}

/// The text of the atom stored under `key` in `items[start..]`.
fn get_str(items: &Vec<Sexp>, start: usize, key: &str) -> (r: Option<String>)
    requires
        start <= items.len(),
    ensures
        match r {
            Some(v) => field_text(trees(items@).skip(start as int), key@) == Some(v@),
            None => field_text(trees(items@).skip(start as int), key@) is None,
        },
{
    match get_field(items, start, key) {
        Some(v) => atom_string(v),
        None => None,
    }
}

/// The metadata carried by the fields of a reply.
pub open spec fn meta_of(rest: Seq<TreeV>) -> MetaV {
    MetaV {
        db_hash: text_or(field_text(rest, "db_hash"@), seq![]),
        db_name: text_or(field_text(rest, "db_name"@), seq![]),
        branch: text_or(field_text(rest, "branch"@), "--"@),
    }
}

/// Extract the common db_hash / db_name / branch metadata from a response's fields.
fn parse_meta(items: &Vec<Sexp>, start: usize) -> (r: ResponseMeta)
    requires
        start <= items.len(),
    ensures
        r@ == meta_of(trees(items@).skip(start as int)),
{
    let db_hash = match get_str(items, start, "db_hash") {
        Some(s) => s,
        None => String::new(),
    };
    let db_name = match get_str(items, start, "db_name") {
        Some(s) => s,
        None => String::new(),
    };
    let branch = match get_str(items, start, "branch") {
        Some(s) => s,
        None => owned("--"),
    };
    ResponseMeta { db_hash, db_name, branch }
}

/// The (key, value) pair of a two-atom list.
pub open spec fn pair_of(t: TreeV) -> Option<PairV> {
    match t {
        TreeV::List(p, _) => if p.len() == 2 {
            match (atom_text(p[0]), atom_text(p[1])) {
                (Some(k), Some(v)) => Some((k, v)),
                _ => None,
            }
        } else {
            None
        },
        _ => None,
    }
}

/// The pairs of the two-atom lists among `xs`, in order; other items are skipped.
pub open spec fn pairs_of(xs: Seq<TreeV>) -> Seq<PairV>
    decreases xs.len(),
{
    if xs.len() == 0 {
        seq![]
    } else {
        let r = pairs_of(xs.drop_last());
        match pair_of(xs.last()) {
            Some(p) => r.push(p),
            None => r,
        }
    }
}

/// The rows among `xs`: each list gives the pairs it holds; other items are skipped.
pub open spec fn row_lists(xs: Seq<TreeV>) -> Seq<Seq<PairV>>
    decreases xs.len(),
{
    if xs.len() == 0 {
        seq![]
    } else {
        let r = row_lists(xs.drop_last());
        match xs.last() {
            TreeV::List(ps, _) => r.push(pairs_of(ps)),
            _ => r,
        }
    }
}

/// The rows stored under the `rows` field.
pub open spec fn rows_of(rest: Seq<TreeV>) -> Seq<Seq<PairV>> {
    match field(rest, "rows"@) {
        Some(TreeV::List(rl, _)) => row_lists(rl),
        _ => seq![],
    }
}

/// The schema stored under the `schema` field.
pub open spec fn schema_of(rest: Seq<TreeV>) -> Seq<PairV> {
    match field(rest, "schema"@) {
        Some(TreeV::List(ps, _)) => pairs_of(ps),
        _ => seq![],
    }
}

/// Parse key-value pairs from a list of `(key value)` S-expressions.
fn parse_kv_pairs(pairs: &Vec<Sexp>) -> (r: Vec<(String, String)>)
    ensures
        pairs_view(r@) == pairs_of(trees(pairs@)),
{
    let mut out: Vec<(String, String)> = Vec::new();
    let mut i: usize = 0;
    while i < pairs.len()
        invariant
            i <= pairs.len(),
            pairs_view(out@) == pairs_of(trees(pairs@).take(i as int)),
        decreases pairs.len() - i,
    {
        let ghost before = out@;
        proof {
            let t = trees(pairs@).take(i + 1);
            assert(t.drop_last() =~= trees(pairs@).take(i as int));
            assert(t.last() == pairs@[i as int]@);
        }
        if let Sexp::List { items: p, .. } = &pairs[i] {
            proof {
                lemma_list_items(pairs@[i as int]);
            }
            if p.len() == 2 {
                let k = atom_string(&p[0]);
                let v = atom_string(&p[1]);
                match (k, v) {
                    (Some(k), Some(v)) => {
                        out.push((k, v));
                        proof {
                            assert(pairs_view(out@) =~= pairs_view(before).push((k@, v@)));
                        }
                    },
                    _ => {},
                }
            }
        }
        i = i + 1;
    }
    proof {
        assert(trees(pairs@).take(pairs@.len() as int) =~= trees(pairs@));
    }
    out
}

/// Parse the rows stored under the `rows` field of `items[start..]`.
fn parse_rows(items: &Vec<Sexp>, start: usize) -> (r: Vec<Vec<(String, String)>>)
    requires
        start <= items.len(),
    ensures
        rows_view(r@) == rows_of(trees(items@).skip(start as int)),
{
    let mut out: Vec<Vec<(String, String)>> = Vec::new();
    if let Some(v) = get_field(items, start, "rows") {
        if let Sexp::List { items: row_list, .. } = v {
            proof {
                lemma_list_items(*v);
            }
            let ghost rl = trees(row_list@);
            let mut i: usize = 0;
            while i < row_list.len()
                invariant
                    i <= row_list.len(),
                    rl == trees(row_list@),
                    rows_view(out@) == row_lists(rl.take(i as int)),
                decreases row_list.len() - i,
            {
                let ghost before = out@;
                proof {
                    let t = rl.take(i + 1);
                    assert(t.drop_last() =~= rl.take(i as int));
                    assert(t.last() == row_list@[i as int]@);
                }
                if let Sexp::List { items: pairs, .. } = &row_list[i] {
                    proof {
                        lemma_list_items(row_list@[i as int]);
                    }
                    let row = parse_kv_pairs(pairs);
                    out.push(row);
                    proof {
                        assert(rows_view(out@) =~= rows_view(before).push(pairs_view(row@)));
                    }
                }
                i = i + 1;
            }
            proof {
                assert(rl.take(row_list@.len() as int) =~= rl);
            }
            return out;
        }
    }
    proof {
        assert(rows_view(out@) =~= Seq::<Seq<PairV>>::empty());
    }
    out
}

/// Why a reply line could not be read as a response.
#[derive(Debug)]
pub enum ResponseError {
    /// The line is not an S-expression; the reader's message.
    Syntax(String),
    /// The line is an atom, not a list.
    ExpectedList,
    /// The list does not start with an atom naming the kind of response.
    MissingTag,
    /// The list starts with a tag no response kind has.
    UnknownTag(String),
}

/// The value of a reply error.
pub enum ResponseErrorV {
    Syntax(Seq<char>),
    ExpectedList,
    MissingTag,
    UnknownTag(Seq<char>),
}

impl View for ResponseError {
    type V = ResponseErrorV;

    open spec fn view(&self) -> ResponseErrorV {
        match self {
            ResponseError::Syntax(m) => ResponseErrorV::Syntax(m@),
            ResponseError::ExpectedList => ResponseErrorV::ExpectedList,
            ResponseError::MissingTag => ResponseErrorV::MissingTag,
            ResponseError::UnknownTag(t) => ResponseErrorV::UnknownTag(t@),
        }
    }
}

/// The message that describes a reply error.
pub open spec fn error_text(e: ResponseErrorV) -> Seq<char> {
    match e {
        ResponseErrorV::Syntax(m) => m,
        ResponseErrorV::ExpectedList => "expected list"@,
        ResponseErrorV::MissingTag => "missing tag"@,
        ResponseErrorV::UnknownTag(t) => "unknown response tag: "@ + t,
    }
}

impl ResponseError {
    /// The message that describes this error.
    pub fn message(&self) -> (r: String)
        ensures
            r@ == error_text(self@),
    {
        match self {
            ResponseError::Syntax(m) => m.clone(),
            ResponseError::ExpectedList => owned("expected list"),
            ResponseError::MissingTag => owned("missing tag"),
            ResponseError::UnknownTag(t) => concat("unknown response tag: ", t.as_str()),
        }
    }
}

/// How a slice of expressions is shown by `{:?}`: each item as the reader
/// prints it, separated by `, `, in square brackets.
pub open spec fn debug_items(xs: Seq<TreeV>) -> Seq<char> {
    "["@ + join(Seq::new(xs.len(), |i: int| printed(xs[i])), ", "@) + "]"@
}

/// The raw text of an error response: its message field, or a note that
/// shows all its fields.
pub open spec fn error_raw(rest: Seq<TreeV>) -> Seq<char> {
    match field(rest, "message"@) {
        Some(f) => atom_text_or_summary(f),
        None => "(message field malformed or missing; full response: "@ + debug_items(rest)
            + ")"@,
    }
}

/// The kind and message of an error text: split at its first `": "`, or of
/// kind `Error` when it has none.
pub open spec fn error_split(raw: Seq<char>) -> (Seq<char>, Seq<char>) {
    match split_colon_space(raw) {
        Some((k, m)) => (k, m),
        None => ("Error"@, raw),
    }
}

/// The `row_count` field as a number, 0 when it is missing or not a `u32`.
pub open spec fn count_of(rest: Seq<TreeV>) -> u32 {
    match field_text(rest, "row_count"@) {
        Some(t) => match parse_u32(t) {
            Some(n) => n,
            None => 0,
        },
        None => 0,
    }
}

/// Whether the field `key` holds the atom `true`.
pub open spec fn flag_of(rest: Seq<TreeV>, key: Seq<char>) -> bool {
    field_text(rest, key) == Some("true"@)
}

/// The response a list `(tag field...)` describes.
pub open spec fn response_from(items: Seq<TreeV>) -> Result<ResponseV, ResponseErrorV> {
    if items.len() == 0 || atom_text(items[0]) is None {
        Err(ResponseErrorV::MissingTag)
    } else {
        let tag = atom_text(items[0]).unwrap();
        let rest = items.skip(1);
        let meta = meta_of(rest);
        if tag == "ok"@ {
            Ok(
                ResponseV::Success {
                    message: match field(rest, "message"@) {
                        Some(f) => atom_text_or_summary(f),
                        None => "(message field missing)"@,
                    },
                    meta,
                },
            )
        } else if tag == "error"@ {
            let (kind, message) = error_split(error_raw(rest));
            Ok(ResponseV::Error { kind, message, meta })
        } else if tag == "relation"@ {
            Ok(
                ResponseV::Relation {
                    name: text_or(field_text(rest, "name"@), seq![]),
                    schema: schema_of(rest),
                    rows: rows_of(rest),
                    row_count: count_of(rest),
                    truncated: flag_of(rest, "truncated"@),
                    meta,
                },
            )
        } else if tag == "cursor"@ {
            Ok(
                ResponseV::Cursor {
                    cursor_id: text_or(field_text(rest, "id"@), seq![]),
                    rows: rows_of(rest),
                    row_count: count_of(rest),
                    has_more: flag_of(rest, "has_more"@),
                    meta,
                },
            )
        } else {
            Err(ResponseErrorV::UnknownTag(tag))
        }
    }
}

/// The response a parsed reply holds: it has to be a list `(tag field...)`.
pub open spec fn response_of_tree(t: TreeV) -> Result<ResponseV, ResponseErrorV> {
    match t {
        TreeV::List(items, _) => response_from(items),
        _ => Err(ResponseErrorV::ExpectedList),
    }
}

/// The response a reply line holds, read with quotes spaced apart first.
pub open spec fn response_of(line: Seq<char>) -> Result<ResponseV, ResponseErrorV> {
    match sexp_read(normalized_spacing(line)) {
        Err(e) => Err(ResponseErrorV::Syntax(e)),
        Ok(t) => response_of_tree(t),
    }
}

/// Writes `items[start..]` as `{:?}` shows a slice of expressions.
fn debug_items_text(items: &Vec<Sexp>, start: usize) -> (r: String)
    requires
        start <= items.len(),
    ensures
        r@ == debug_items(trees(items@).skip(start as int)),
{
    let ghost rest = trees(items@).skip(start as int);
    let ghost sep = ", "@;
    let mut body = String::new();
    let mut i = start;
    while i < items.len()
        invariant
            start <= i <= items.len(),
            rest == trees(items@).skip(start as int),
            sep == ", "@,
            body@ == join(Seq::new((i - start) as nat, |k: int| printed(rest[k])), sep),
        decreases items.len() - i,
    {
        let ghost parts = Seq::new((i - start) as nat, |k: int| printed(rest[k]));
        let ghost before = body@;
        proof {
            lemma_join_push(parts, sep, printed(items@[i as int]@));
            assert(rest[i - start] == items@[i as int]@);
            assert(Seq::new((i + 1 - start) as nat, |k: int| printed(rest[k])) =~= parts.push(
                printed(items@[i as int]@),
            ));
        }
        if i > start {
            body.append(", ");
        }
        push_printed(&mut body, &items[i]);
        proof {
            if i > start {
                assert(before + sep + printed(items@[i as int]@) == body@);
            }
        }
        i = i + 1;
    }
    proof {
        assert(Seq::new((i - start) as nat, |k: int| printed(rest[k])) =~= Seq::new(
            rest.len(),
            |k: int| printed(rest[k]),
        ));
    }
    let mut r = owned("[");
    r.append(body.as_str());
    r.append("]");
    r
}

/// The `row_count` field of `items[start..]`.
fn parse_count(items: &Vec<Sexp>, start: usize) -> (r: u32)
    requires
        start <= items.len(),
    ensures
        r == count_of(trees(items@).skip(start as int)),
{
    match get_str(items, start, "row_count") {
        Some(s) => match parse_u32_str(s.as_str()) {
            Some(n) => n,
            None => 0,
        },
        None => 0,
    }
}

/// Whether the field `key` of `items[start..]` holds `true`.
fn parse_flag(items: &Vec<Sexp>, start: usize, key: &str) -> (r: bool)
    requires
        start <= items.len(),
    ensures
        r == flag_of(trees(items@).skip(start as int), key@),
{
    match get_str(items, start, key) {
        Some(s) => str_eq(s.as_str(), "true"),
        None => false,
    }
}

/// The text stored under `key` in `items[start..]`, or the empty text.
fn parse_text(items: &Vec<Sexp>, start: usize, key: &str) -> (r: String)
    requires
        start <= items.len(),
    ensures
        r@ == text_or(field_text(trees(items@).skip(start as int), key@), seq![]),
{
    match get_str(items, start, key) {
        Some(s) => s,
        None => String::new(),
    }
}

/// The schema stored under the `schema` field of `items[start..]`.
fn parse_schema(items: &Vec<Sexp>, start: usize) -> (r: Vec<SchemaField>)
    requires
        start <= items.len(),
    ensures
        schema_view(r@) == schema_of(trees(items@).skip(start as int)),
{
    let mut out: Vec<SchemaField> = Vec::new();
    if let Some(v) = get_field(items, start, "schema") {
        if let Sexp::List { items: pairs, .. } = v {
            proof {
                lemma_list_items(*v);
            }
            let kv = parse_kv_pairs(pairs);
            let ghost all = pairs_view(kv@);
            let mut i: usize = 0;
            let n = kv.len();
            while i < n
                invariant
                    i <= n,
                    n == kv.len(),
                    all == pairs_view(kv@),
                    schema_view(out@) == all.take(i as int),
                decreases n - i,
            {
                let attr = kv[i].0.clone();
                let domain = kv[i].1.clone();
                let ghost before = out@;
                out.push(SchemaField { attr, domain });
                proof {
                    assert(schema_view(out@) =~= schema_view(before).push(all[i as int]));
                    assert(all.take(i + 1) =~= all.take(i as int).push(all[i as int]));
                }
                i = i + 1;
            }
            proof {
                assert(all.take(n as int) =~= all);
            }
            return out;
        }
    }
    proof {
        assert(schema_view(out@) =~= Seq::<PairV>::empty());
    }
    out
}

/// Reads one server reply.
pub fn parse_response(s: &str) -> (res: Result<ServerResponse, ResponseError>)
    ensures
        response_of(s@) == match res {
            Ok(r) => Ok(r@),
            Err(e) => Err(e@),
        },
{
    let normalized = normalize_sexp_spacing(s);
    match read_sexp(normalized.as_str()) {
        Ok(t) => response_from_sexp(&t),
        Err(e) => Err(ResponseError::Syntax(e)),
    }
}

/// Reads a response from a parsed reply.
pub fn response_from_sexp(sexp: &Sexp) -> (res: Result<ServerResponse, ResponseError>)
    ensures
        response_of_tree(sexp@) == match res {
            Ok(r) => Ok(r@),
            Err(e) => Err(e@),
        },
{
    let items = match sexp {
        Sexp::List { items, .. } => items,
        _ => return Err(ResponseError::ExpectedList),
    };
    proof {
        lemma_list_items(*sexp);
    }
    if items.len() == 0 {
        return Err(ResponseError::MissingTag);
    }
    let tag = match atom_string(&items[0]) {
        Some(t) => t,
        None => return Err(ResponseError::MissingTag),
    };
    let ghost rest = trees(items@).skip(1);
    let meta = parse_meta(items, 1);
    if str_eq(tag.as_str(), "ok") {
        let message = match get_field(items, 1, "message") {
            Some(f) => atom_string_debug(f),
            None => owned("(message field missing)"),
        };
        Ok(ServerResponse::Success { message, meta })
    } else if str_eq(tag.as_str(), "error") {
        let raw = match get_field(items, 1, "message") {
            Some(f) => atom_string_debug(f),
            None => {
                let mut m = owned("(message field malformed or missing; full response: ");
                let d = debug_items_text(items, 1);
                m.append(d.as_str());
                m.append(")");
                m
            },
        };
        let (kind, message) = match split_once_colon_space(raw.as_str()) {
            Some((k, m)) => (k, m),
            None => (owned("Error"), raw),
        };
        Ok(ServerResponse::Error { kind, message, meta })
    } else if str_eq(tag.as_str(), "relation") {
        let name = parse_text(items, 1, "name");
        let row_count = parse_count(items, 1);
        let truncated = parse_flag(items, 1, "truncated");
        let schema = parse_schema(items, 1);
        let rows = parse_rows(items, 1);
        Ok(ServerResponse::Relation { name, schema, rows, row_count, truncated, meta })
    } else if str_eq(tag.as_str(), "cursor") {
        let cursor_id = parse_text(items, 1, "id");
        let row_count = parse_count(items, 1);
        let has_more = parse_flag(items, 1, "has_more");
        let rows = parse_rows(items, 1);
        Ok(ServerResponse::Cursor { cursor_id, rows, row_count, has_more, meta })
    } else {
        Err(ResponseError::UnknownTag(tag))
    }
}

/// Reads the server's reply to a command from the line it sent back.
pub fn decode_reply(line: &str) -> (res: Result<ServerResponse, ResponseError>)
    ensures
        response_of(trim(line@)) == match res {
            Ok(r) => Ok(r@),
            Err(e) => Err(e@),
        },
{
    let t = trim_str(line);
    parse_response(t.as_str())
}

// ---------------------------------------------------------------------------
// Rendering a response
// ---------------------------------------------------------------------------

/// The texts of a sequence of strings.
pub open spec fn strings_view(v: Seq<String>) -> Seq<Seq<char>> {
    Seq::new(v.len(), |i: int| v[i]@)
}

/// The texts of a table's rows of cells.
pub open spec fn cells_view(v: Seq<Vec<String>>) -> Seq<Seq<Seq<char>>> {
    Seq::new(v.len(), |i: int| strings_view(v[i]@))
}

/// The text `ascii_table` writes for a table with these column headers and
/// rows of cells.
pub uninterp spec fn ascii_table_text(headers: Seq<Seq<char>>, cells: Seq<Seq<Seq<char>>>) -> Seq<
    char,
>;

/// One past the index of the last header that is not empty (0 when all are).
pub open spec fn last_titled(headers: Seq<Seq<char>>) -> nat
    decreases headers.len(),
{
    if headers.len() == 0 {
        0
    } else if headers.last().len() > 0 {
        headers.len()
    } else {
        last_titled(headers.drop_last())
    }
}

/// The length of the longest row.
pub open spec fn widest_row(cells: Seq<Seq<Seq<char>>>) -> nat
    decreases cells.len(),
{
    if cells.len() == 0 {
        0
    } else {
        let w = widest_row(cells.drop_last());
        if cells.last().len() > w {
            cells.last().len()
        } else {
            w
        }
    }
}

/// The number of columns `ascii_table` lays out: enough for the last titled
/// header and the longest row, and at least one.
pub open spec fn table_columns(headers: Seq<Seq<char>>, cells: Seq<Seq<Seq<char>>>) -> nat {
    let n = if last_titled(headers) > widest_row(cells) {
        last_titled(headers)
    } else {
        widest_row(cells)
    };
    if n > 1 {
        n
    } else {
        1
    }
}

/// Writes a table with `ascii_table` (default settings, headers set column by
/// column) into a buffer and returns the text. The text is named, not
/// described: it is a function of the headers and cells alone. The crate
/// panics when the table has 34 columns or more (its width arithmetic
/// underflows at the default width of 100), which `requires` leaves out.
#[verifier::external_body]
fn ascii_table(headers: &Vec<String>, cells: &Vec<Vec<String>>) -> (text: String)
    requires
        table_columns(strings_view(headers@), cells_view(cells@)) <= 33,
    ensures
        text@ == ascii_table_text(strings_view(headers@), cells_view(cells@)),
{
    let mut table = AsciiTable::default();
    for (i, header) in headers.iter().enumerate() {
        table.column(i).set_header(header.as_str());
    }
    let mut output = Vec::new();
    table.writeln(&mut output, cells).ok();
    String::from_utf8(output).unwrap_or_default()
}

/// The value of the first pair of `row` at or after `i` whose key is `key`,
/// or `?` when there is none.
pub open spec fn lookup(row: Seq<PairV>, i: int, key: Seq<char>) -> Seq<char>
    decreases row.len() - i,
{
    if i < 0 || i >= row.len() {
        "?"@
    } else if row[i].0 == key {
        row[i].1
    } else {
        lookup(row, i + 1, key)
    }
}

/// The cells of a table: for each row and each header, the row's value for
/// that header.
pub open spec fn table_cells(headers: Seq<Seq<char>>, rows: Seq<Seq<PairV>>) -> Seq<
    Seq<Seq<char>>,
> {
    Seq::new(rows.len(), |i: int| Seq::new(headers.len(), |j: int| lookup(rows[i], 0, headers[j])))
}

/// The attribute names of a schema.
pub open spec fn attrs(schema: Seq<PairV>) -> Seq<Seq<char>> {
    Seq::new(schema.len(), |i: int| schema[i].0)
}

/// The table text for rows under these headers; empty when there are no headers.
pub open spec fn rendered_table(headers: Seq<Seq<char>>, rows: Seq<Seq<PairV>>) -> Seq<char> {
    if headers.len() == 0 {
        seq![]
    } else {
        ascii_table_text(headers, table_cells(headers, rows))
    }
}

/// Whether rows under these headers can be laid out as a table.
pub open spec fn renderable(headers: Seq<Seq<char>>, rows: Seq<Seq<PairV>>) -> bool {
    headers.len() == 0 || table_columns(headers, table_cells(headers, rows)) <= 33
}

/// The value of `row` for `attr`, or `?`.
fn cell_value(row: &Vec<(String, String)>, attr: &str) -> (r: String)
    ensures
        r@ == lookup(pairs_view(row@), 0, attr@),
{
    let ghost pv = pairs_view(row@);
    let mut i: usize = 0;
    while i < row.len()
        invariant
            i <= row.len(),
            pv == pairs_view(row@),
            lookup(pv, 0, attr@) == lookup(pv, i as int, attr@),
        decreases row.len() - i,
    {
        if str_eq(row[i].0.as_str(), attr) {
            return row[i].1.clone();
        }
        i = i + 1;
    }
    owned("?")
}

/// Whether each column of `cells` has exactly `n` cells.
proof fn lemma_widest_row_uniform(cells: Seq<Seq<Seq<char>>>, n: nat)
    requires
        forall|i: int| 0 <= i < cells.len() ==> #[trigger] cells[i].len() == n,
    ensures
        cells.len() > 0 ==> widest_row(cells) == n,
        cells.len() == 0 ==> widest_row(cells) == 0,
    decreases cells.len(),
{
    if cells.len() > 0 {
        let d = cells.drop_last();
        assert forall|i: int| 0 <= i < d.len() implies #[trigger] d[i].len() == n by {
            assert(d[i] == cells[i]);
        }
        lemma_widest_row_uniform(d, n);
    }
}

/// Renders rows as a table under the schema's attributes; empty when the
/// schema is.
fn render_table(schema: &Vec<SchemaField>, rows: &Vec<Vec<(String, String)>>) -> (r: String)
    requires
        renderable(attrs(schema_view(schema@)), rows_view(rows@)),
    ensures
        r@ == rendered_table(attrs(schema_view(schema@)), rows_view(rows@)),
{
    if schema.len() == 0 {
        return String::new();
    }
    let ghost headers = attrs(schema_view(schema@));
    let mut names: Vec<String> = Vec::new();
    let mut j: usize = 0;
    while j < schema.len()
        invariant
            j <= schema.len(),
            headers == attrs(schema_view(schema@)),
            strings_view(names@) == headers.take(j as int),
        decreases schema.len() - j,
    {
        let ghost before = names@;
        names.push(schema[j].attr.clone());
        proof {
            assert(strings_view(names@) =~= strings_view(before).push(headers[j as int]));
            assert(headers.take(j + 1) =~= headers.take(j as int).push(headers[j as int]));
        }
        j = j + 1;
    }
    proof {
        assert(headers.take(schema.len() as int) =~= headers);
    }
    let ghost want = table_cells(headers, rows_view(rows@));
    let mut data: Vec<Vec<String>> = Vec::new();
    let mut i: usize = 0;
    while i < rows.len()
        invariant
            i <= rows.len(),
            headers == attrs(schema_view(schema@)),
            headers.len() == schema.len(),
            want == table_cells(headers, rows_view(rows@)),
            cells_view(data@) == want.take(i as int),
        decreases rows.len() - i,
    {
        let mut line: Vec<String> = Vec::new();
        let mut k: usize = 0;
        while k < schema.len()
            invariant
                k <= schema.len(),
                i < rows.len(),
                headers == attrs(schema_view(schema@)),
                headers.len() == schema.len(),
                want == table_cells(headers, rows_view(rows@)),
                strings_view(line@) == want[i as int].take(k as int),
            decreases schema.len() - k,
        {
            let ghost before = line@;
            let v = cell_value(&rows[i], schema[k].attr.as_str());
            line.push(v);
            proof {
                assert(strings_view(line@) =~= strings_view(before).push(want[i as int][k as int]));
                assert(want[i as int].take(k + 1) =~= want[i as int].take(k as int).push(
                    want[i as int][k as int],
                ));
            }
            k = k + 1;
        }
        let ghost before = data@;
        data.push(line);
        proof {
            assert(want[i as int].take(schema.len() as int) =~= want[i as int]);
            assert(cells_view(data@) =~= cells_view(before).push(want[i as int]));
            assert(want.take(i + 1) =~= want.take(i as int).push(want[i as int]));
        }
        i = i + 1;
    }
    proof {
        assert(want.take(rows.len() as int) =~= want);
        assert(cells_view(data@) == want);
    }
    ascii_table(&names, &data)
}

/// Whether the first `k` characters of `s` take exactly `n` bytes.
pub open spec fn is_byte_boundary(s: Seq<char>, k: int, n: nat) -> bool {
    0 <= k <= s.len() && utf8_len(s.take(k)) == n
}

/// The longest prefix of `id` that fits in 8 bytes when `id` is longer than
/// that, else `id` itself (`&id[..8]` when `id.len() > 8`).
pub open spec fn short_id(id: Seq<char>) -> Seq<char> {
    if utf8_len(id) > 8 {
        id.take(choose|k: int| is_byte_boundary(id, k, 8))
    } else {
        id
    }
}

/// Whether `&id[..8]` is defined: `id` takes at most 8 bytes, or its first 8
/// bytes end on a character boundary.
pub open spec fn short_id_ok(id: Seq<char>) -> bool {
    utf8_len(id) > 8 ==> exists|k: int| is_byte_boundary(id, k, 8)
}

/// Each further character adds at least one byte.
proof fn lemma_utf8_len_take_grows(s: Seq<char>, j: int, k: int)
    requires
        0 <= j < k <= s.len(),
    ensures
        utf8_len(s.take(j)) < utf8_len(s.take(k)),
    decreases k - j,
{
    assert(s.take(k).drop_last() == s.take(k - 1));
    if j < k - 1 {
        lemma_utf8_len_take_grows(s, j, k - 1);
    }
}

/// The first 8 bytes of a long cursor id, or the whole id.
fn short_cursor_id(id: &str) -> (r: String)
    requires
        short_id_ok(id@),
    ensures
        r@ == short_id(id@),
{
    let cs = chars_of(id);
    // `b` is the byte length of the first `k` characters, while it stays at most 8.
    let mut k: usize = 0;
    let mut b: usize = 0;
    while k < cs.len() && b + char_utf8_width(cs[k]) <= 8
        invariant
            k <= cs.len(),
            cs@ == id@,
            b as nat == utf8_len(cs@.take(k as int)),
            b <= 8,
        decreases cs.len() - k,
    {
        proof {
            assert(cs@.take(k + 1).drop_last() == cs@.take(k as int));
        }
        b = b + char_utf8_width(cs[k]);
        k = k + 1;
    }
    if k == cs.len() {
        proof {
            assert(cs@.take(k as int) == cs@);
        }
        return owned(id);
    }
    proof {
        assert(cs@.take(k + 1).drop_last() == cs@.take(k as int));
        assert(utf8_len(cs@.take(k + 1)) > 8);
        if utf8_len(cs@) <= 8 {
            if k + 1 < cs.len() {
                lemma_utf8_len_take_grows(cs@, k + 1, cs@.len() as int);
            }
            assert(cs@.take(cs@.len() as int) == cs@);
            assert(false);
        }
        let w = choose|w: int| is_byte_boundary(cs@, w, 8);
        if w <= k as int {
            if w < k {
                lemma_utf8_len_take_grows(cs@, w, k as int);
            }
        } else {
            if w > k + 1 {
                lemma_utf8_len_take_grows(cs@, k + 1, w);
            }
        }
        assert(w == k);
        assert(is_byte_boundary(cs@, k as int, 8));
    }
    let mut r = String::new();
    push_range(&mut r, &cs, 0, k);
    proof {
        assert(cs@.subrange(0, k as int) == cs@.take(k as int));
    }
    r
}

/// `true` or `false`.
pub open spec fn bool_text(b: bool) -> Seq<char> {
    if b {
        "true"@
    } else {
        "false"@
    }
}

/// The keys of the first row, which a cursor's table uses as its columns.
pub open spec fn first_row_keys(rows: Seq<Seq<PairV>>) -> Seq<Seq<char>> {
    if rows.len() == 0 {
        seq![]
    } else {
        attrs(rows[0])
    }
}

/// The table a response shows: a relation's rows under its schema, a
/// cursor's rows under the keys of its first row; none for other responses.
pub open spec fn response_table(r: ResponseV) -> Seq<char> {
    match r {
        ResponseV::Relation { schema, rows, .. } => rendered_table(attrs(schema), rows),
        ResponseV::Cursor { rows, .. } => rendered_table(first_row_keys(rows), rows),
        _ => seq![],
    }
}

/// How a response is shown in the REPL, given the text of its table.
pub open spec fn shown_with(r: ResponseV, table: Seq<char>) -> Seq<char> {
    match r {
        ResponseV::Relation { name, row_count, truncated, .. } => name + "\n"@ + table + "("@
            + decimal(row_count as nat) + if truncated {
            " rows, truncated)"@
        } else {
            " rows)"@
        },
        ResponseV::Success { message, .. } => "OK  "@ + message,
        ResponseV::Error { kind, message, .. } => kind + ": "@ + message,
        ResponseV::Cursor { cursor_id, row_count, has_more, .. } => table + "("@ + decimal(
            row_count as nat,
        ) + " rows, cursor: "@ + short_id(cursor_id) + ", has_more: "@ + bool_text(has_more)
            + ")"@,
    }
}

/// How a response is shown in the REPL.
pub open spec fn formatted(r: ResponseV) -> Seq<char> {
    shown_with(r, response_table(r))
}

/// Whether a response can be shown around its table: a long cursor id can
/// be cut at its eighth byte.
pub open spec fn shown_ok(r: ResponseV) -> bool {
    match r {
        ResponseV::Cursor { cursor_id, .. } => short_id_ok(cursor_id),
        _ => true,
    }
}

/// Whether a response can be shown: its table can be laid out, and a long
/// cursor id can be cut at its eighth byte.
pub open spec fn displayable(r: ResponseV) -> bool {
    match r {
        ResponseV::Relation { schema, rows, .. } => renderable(attrs(schema), rows),
        ResponseV::Cursor { cursor_id, rows, .. } => renderable(first_row_keys(rows), rows)
            && short_id_ok(cursor_id),
        _ => true,
    }
}

/// Appends `true` or `false`.
fn push_bool(out: &mut String, b: bool)
    ensures
        final(out)@ == old(out)@ + bool_text(b),
{
    if b {
        out.append("true");
    } else {
        out.append("false");
    }
}

/// The schema a cursor's rows imply: the keys of its first row.
fn first_row_schema(rows: &Vec<Vec<(String, String)>>) -> (r: Vec<SchemaField>)
    ensures
        attrs(schema_view(r@)) == first_row_keys(rows_view(rows@)),
{
    let mut schema: Vec<SchemaField> = Vec::new();
    if rows.len() > 0 {
        let row = &rows[0];
        let ghost want = first_row_keys(rows_view(rows@));
        let mut i: usize = 0;
        while i < row.len()
            invariant
                i <= row.len(),
                rows.len() > 0,
                *row == rows@[0],
                want == first_row_keys(rows_view(rows@)),
                attrs(schema_view(schema@)) == want.take(i as int),
            decreases row.len() - i,
        {
            let ghost before = schema@;
            schema.push(SchemaField { attr: row[i].0.clone(), domain: String::new() });
            proof {
                assert(attrs(schema_view(schema@)) =~= attrs(schema_view(before)).push(
                    want[i as int],
                ));
                assert(want.take(i + 1) =~= want.take(i as int).push(want[i as int]));
            }
            i = i + 1;
        }
        proof {
            assert(want.take(row.len() as int) =~= want);
        }
    } else {
        proof {
            assert(attrs(schema_view(schema@)) =~= Seq::<Seq<char>>::empty());
        }
    }
    schema
}

/// The text of the table a response shows.
fn response_table_text(resp: &ServerResponse) -> (r: String)
    requires
        displayable(resp@),
    ensures
        r@ == response_table(resp@),
{
    match resp {
        ServerResponse::Relation { schema, rows, .. } => render_table(schema, rows),
        ServerResponse::Cursor { rows, .. } => {
            let schema = first_row_schema(rows);
            render_table(&schema, rows)
        },
        _ => String::new(),
    }
}

/// Shows a response around the text of its table.
pub fn format_with_table(resp: &ServerResponse, table: &str) -> (r: String)
    requires
        shown_ok(resp@),
    ensures
        r@ == shown_with(resp@, table@),
{
    match resp {
        ServerResponse::Relation { name, row_count, truncated, .. } => {
            let mut out = name.clone();
            out.append("\n");
            out.append(table);
            out.append("(");
            push_decimal(&mut out, *row_count as u64);
            if *truncated {
                out.append(" rows, truncated)");
            } else {
                out.append(" rows)");
            }
            out
        },
        ServerResponse::Success { message, .. } => concat("OK  ", message.as_str()),
        ServerResponse::Error { kind, message, .. } => {
            let mut out = kind.clone();
            out.append(": ");
            out.append(message.as_str());
            out
        },
        ServerResponse::Cursor { cursor_id, row_count, has_more, .. } => {
            let mut out = owned(table);
            out.append("(");
            push_decimal(&mut out, *row_count as u64);
            out.append(" rows, cursor: ");
            let short = short_cursor_id(cursor_id.as_str());
            out.append(short.as_str());
            out.append(", has_more: ");
            push_bool(&mut out, *has_more);
            out.append(")");
            out
        },
    }
}

/// Render a response as the text the REPL shows.
pub fn format_response(resp: &ServerResponse) -> (r: String)
    requires
        displayable(resp@),
    ensures
        r@ == formatted(resp@),
{
    let table = response_table_text(resp);
    format_with_table(resp, table.as_str())
}

/// `last_titled` of the attributes of a schema.
fn last_titled_attr(schema: &Vec<SchemaField>) -> (r: usize)
    ensures
        r as nat == last_titled(attrs(schema_view(schema@))),
        r <= schema.len(),
{
    let ghost h = attrs(schema_view(schema@));
    let mut j = schema.len();
    proof {
        assert(h.take(j as int) =~= h);
    }
    while j > 0 && schema[j - 1].attr.as_str().is_empty()
        invariant
            j <= schema.len(),
            h == attrs(schema_view(schema@)),
            last_titled(h) == last_titled(h.take(j as int)),
        decreases j,
    {
        proof {
            assert(h.take(j as int).drop_last() == h.take(j - 1));
        }
        j = j - 1;
    }
    proof {
        if j > 0 {
            assert(h.take(j as int).last() == h[j - 1]);
        }
    }
    j
}

/// Whether rows under the schema's attributes can be laid out as a table.
fn table_fits(schema: &Vec<SchemaField>, rows: &Vec<Vec<(String, String)>>) -> (r: bool)
    ensures
        r == renderable(attrs(schema_view(schema@)), rows_view(rows@)),
{
    if schema.len() == 0 {
        return true;
    }
    let titled = last_titled_attr(schema);
    let widest = if rows.len() > 0 {
        schema.len()
    } else {
        0
    };
    proof {
        let h = attrs(schema_view(schema@));
        let c = table_cells(h, rows_view(rows@));
        lemma_widest_row_uniform(c, h.len());
    }
    let n = if titled > widest {
        titled
    } else {
        widest
    };
    let n = if n > 1 {
        n
    } else {
        1
    };
    n <= 33
}

/// Whether `&id[..8]` is defined for the id.
fn short_id_defined(id: &str) -> (r: bool)
    ensures
        r == short_id_ok(id@),
{
    let cs = chars_of(id);
    let mut k: usize = 0;
    let mut b: usize = 0;
    while k < cs.len() && b + char_utf8_width(cs[k]) <= 8
        invariant
            k <= cs.len(),
            cs@ == id@,
            b as nat == utf8_len(cs@.take(k as int)),
            b <= 8,
        decreases cs.len() - k,
    {
        proof {
            assert(cs@.take(k + 1).drop_last() == cs@.take(k as int));
        }
        b = b + char_utf8_width(cs[k]);
        k = k + 1;
    }
    if k == cs.len() {
        proof {
            assert(cs@.take(k as int) == cs@);
        }
        return true;
    }
    proof {
        assert(cs@.take(k + 1).drop_last() == cs@.take(k as int));
        assert(utf8_len(cs@.take(k + 1)) > 8);
        if k + 1 < cs.len() {
            lemma_utf8_len_take_grows(cs@, k + 1, cs@.len() as int);
        }
        assert(cs@.take(cs@.len() as int) == cs@);
        assert(utf8_len(cs@) > 8);
        if b < 8 {
            assert forall|w: int| !is_byte_boundary(cs@, w, 8) by {
                if 0 <= w <= cs@.len() {
                    if w < k {
                        lemma_utf8_len_take_grows(cs@, w, k as int);
                    } else if w > k + 1 {
                        lemma_utf8_len_take_grows(cs@, k + 1, w);
                    }
                }
            }
        } else {
            assert(is_byte_boundary(cs@, k as int, 8));
        }
    }
    b == 8
}

/// Whether `format_response` can render the response: its table fits
/// `ascii_table`'s width, and a long cursor id can be cut at its eighth byte.
pub fn is_displayable(resp: &ServerResponse) -> (r: bool)
    ensures
        r == displayable(resp@),
{
    match resp {
        ServerResponse::Relation { schema, rows, .. } => table_fits(schema, rows),
        ServerResponse::Cursor { cursor_id, rows, .. } => {
            let schema = first_row_schema(rows);
            table_fits(&schema, rows) && short_id_defined(cursor_id.as_str())
        },
        _ => true,
    }
}

/// The first `": "` found at or after `i` is a `": "` in `s`.
proof fn lemma_colon_space_found(s: Seq<char>, i: int)
    ensures
        colon_space_from(s, i) matches Some(k) ==> i <= k && k + 1 < s.len() && s[k] == ':'
            && s[k + 1] == ' ',
    decreases s.len() - i,
{
    if !(i < 0 || i + 1 >= s.len()) && !(s[i] == ':' && s[i + 1] == ' ') {
        lemma_colon_space_found(s, i + 1);
    }
}

/// Showing an error response joins its kind and message with `": "`, so an
/// error text that was split at its first `": "` is shown exactly as the
/// server sent it.
pub proof fn law_error_text_shown_as_sent(raw: Seq<char>, meta: MetaV)
    requires
        split_colon_space(raw) is Some,
    ensures
        formatted(
            ResponseV::Error { kind: error_split(raw).0, message: error_split(raw).1, meta },
        ) == raw,
{
    lemma_colon_space_found(raw, 0);
    let k = colon_space_from(raw, 0).unwrap();
    reveal_strlit(": ");
    assert(raw.take(k) + ": "@ + raw.skip(k + 2) =~= raw);
}

/// A cursor reply reads as a cursor whose `has_more` is true exactly when
/// its `has_more` field holds the atom `true` (so `(has_more false)`, any
/// other text, or no field at all reads as false), whose id is the `id`
/// field's text (empty when missing), and whose rows and count come from its
/// `rows` and `row_count` fields.
pub proof fn law_cursor_reply_fields(items: Seq<TreeV>)
    requires
        items.len() > 0,
        atom_text(items[0]) == Some("cursor"@),
    ensures
        response_from(items) matches Ok(ResponseV::Cursor { cursor_id, rows, row_count, has_more, meta })
            && (has_more <==> field_text(items.skip(1), "has_more"@) == Some("true"@))
            && cursor_id == text_or(field_text(items.skip(1), "id"@), seq![])
            && rows == rows_of(items.skip(1))
            && row_count == (match field_text(items.skip(1), "row_count"@) {
                Some(t) => match parse_u32(t) {
                    Some(n) => n,
                    None => 0u32,
                },
                None => 0u32,
            })
            && meta.db_hash == text_or(field_text(items.skip(1), "db_hash"@), seq![])
            && meta.db_name == text_or(field_text(items.skip(1), "db_name"@), seq![])
            && meta.branch == text_or(field_text(items.skip(1), "branch"@), "--"@),
        field_text(items.skip(1), "has_more"@) == Some("false"@) ==> response_from(
            items,
        )->Ok_0->Cursor_has_more == false,
{
    reveal_strlit("cursor");
    reveal_strlit("ok");
    reveal_strlit("error");
    reveal_strlit("relation");
    reveal_strlit("true");
    reveal_strlit("false");
    assert("false"@.len() != "true"@.len());
    assert("cursor"@.len() == 6 && "ok"@.len() == 2 && "error"@.len() == 5);
    assert("relation"@.len() == 8);
}

/// A relation reply reads as a relation that is truncated exactly when its
/// `truncated` field holds the atom `true` (so `(truncated false)`, any
/// other text, or no field at all reads as not truncated), named by its
/// `name` field (empty when missing).
pub proof fn law_relation_reply_fields(items: Seq<TreeV>)
    requires
        items.len() > 0,
        atom_text(items[0]) == Some("relation"@),
    ensures
        response_from(items) matches Ok(ResponseV::Relation { name, schema, rows, row_count, truncated, meta })
            && (truncated <==> field_text(items.skip(1), "truncated"@) == Some("true"@))
            && name == text_or(field_text(items.skip(1), "name"@), seq![])
            && schema == schema_of(items.skip(1))
            && rows == rows_of(items.skip(1))
            && row_count == (match field_text(items.skip(1), "row_count"@) {
                Some(t) => match parse_u32(t) {
                    Some(n) => n,
                    None => 0u32,
                },
                None => 0u32,
            })
            && meta.db_hash == text_or(field_text(items.skip(1), "db_hash"@), seq![])
            && meta.db_name == text_or(field_text(items.skip(1), "db_name"@), seq![])
            && meta.branch == text_or(field_text(items.skip(1), "branch"@), "--"@),
        field_text(items.skip(1), "truncated"@) == Some("false"@) ==> response_from(
            items,
        )->Ok_0->Relation_truncated == false,
{
    reveal_strlit("cursor");
    reveal_strlit("ok");
    reveal_strlit("error");
    reveal_strlit("relation");
    reveal_strlit("true");
    reveal_strlit("false");
    assert("false"@.len() != "true"@.len());
    assert("cursor"@.len() == 6 && "ok"@.len() == 2 && "error"@.len() == 5);
    assert("relation"@.len() == 8);
}

/// A relation with at least one column is shown with its table, whatever
/// its rows, none included: its name, then the text `ascii_table` writes for
/// the schema's attributes as headers and each row's value under each
/// header, then the row count. With no rows the table still carries the
/// headers: it is `ascii_table`'s text for no rows.
pub proof fn law_relation_shows_its_columns(
    name: Seq<char>,
    schema: Seq<PairV>,
    rows: Seq<Seq<PairV>>,
    row_count: u32,
    truncated: bool,
    meta: MetaV,
)
    requires
        schema.len() > 0,
    ensures
        formatted(ResponseV::Relation { name, schema, rows, row_count, truncated, meta }) == name
            + "\n"@ + ascii_table_text(attrs(schema), table_cells(attrs(schema), rows)) + "("@
            + decimal(row_count as nat) + if truncated {
            " rows, truncated)"@
        } else {
            " rows)"@
        },
        rows.len() == 0 ==> formatted(
            ResponseV::Relation { name, schema, rows, row_count, truncated, meta },
        ) == name + "\n"@ + ascii_table_text(attrs(schema), Seq::<Seq<Seq<char>>>::empty())
            + "("@ + decimal(row_count as nat) + if truncated {
            " rows, truncated)"@
        } else {
            " rows)"@
        },
{
    assert(attrs(schema).len() == schema.len());
    if rows.len() == 0 {
        assert(table_cells(attrs(schema), rows) =~= Seq::<Seq<Seq<char>>>::empty());
    }
}

/// An `ok` reply reads as a success whose message is its `message` field
/// (an atom's text, or a note of a list's length), or a note that the field
/// is missing.
pub proof fn law_ok_reply_fields(items: Seq<TreeV>)
    requires
        items.len() > 0,
        atom_text(items[0]) == Some("ok"@),
    ensures
        response_from(items) matches Ok(ResponseV::Success { message, meta })
            && message == (match field(items.skip(1), "message"@) {
                Some(f) => atom_text_or_summary(f),
                None => "(message field missing)"@,
            })
            && meta.branch == text_or(field_text(items.skip(1), "branch"@), "--"@),
{
}

/// An `error` reply whose message field is an atom reads as an error: split
/// at the message's first `": "` into kind and message, which join back to
/// the text sent, or of kind `Error` with the whole text as its message when
/// it has no `": "`.
pub proof fn law_error_reply_fields(items: Seq<TreeV>, raw: Seq<char>)
    requires
        items.len() > 0,
        atom_text(items[0]) == Some("error"@),
        field_text(items.skip(1), "message"@) == Some(raw),
    ensures
        response_from(items) matches Ok(ResponseV::Error { kind, message, meta })
            && (split_colon_space(raw) is Some ==> kind + ": "@ + message == raw)
            && (split_colon_space(raw) is None ==> kind == "Error"@ && message == raw),
{
    reveal_strlit("ok");
    reveal_strlit("error");
    assert("ok"@.len() != "error"@.len());
    if split_colon_space(raw) is Some {
        lemma_colon_space_found(raw, 0);
        let k = colon_space_from(raw, 0).unwrap();
        reveal_strlit(": ");
        assert(raw.take(k) + ": "@ + raw.skip(k + 2) =~= raw);
    }
}

/// A reply whose tag is none of `ok`, `error`, `relation` and `cursor` is
/// refused as an unknown tag, naming it; one without a tag as missing it.
pub proof fn law_unknown_reply_tag(items: Seq<TreeV>)
    ensures
        items.len() == 0 || atom_text(items[0]) is None ==> response_from(items) == Err::<
            ResponseV,
            ResponseErrorV,
        >(ResponseErrorV::MissingTag),
        items.len() > 0 && atom_text(items[0]) is Some && atom_text(items[0]) != Some("ok"@)
            && atom_text(items[0]) != Some("error"@) && atom_text(items[0]) != Some("relation"@)
            && atom_text(items[0]) != Some("cursor"@) ==> response_from(items) == Err::<
            ResponseV,
            ResponseErrorV,
        >(ResponseErrorV::UnknownTag(atom_text(items[0])->Some_0)),
{
}

/// A cursor is shown as the table of its rows under the keys of its first
/// row (no table when it has no rows or its first row no keys), then its
/// row count, its id (whole when it takes at most 8 bytes) and whether more
/// rows follow.
pub proof fn law_cursor_display(
    cursor_id: Seq<char>,
    rows: Seq<Seq<PairV>>,
    row_count: u32,
    has_more: bool,
    meta: MetaV,
)
    ensures
        ({
            let table = if rows.len() > 0 && rows[0].len() > 0 {
                ascii_table_text(attrs(rows[0]), table_cells(attrs(rows[0]), rows))
            } else {
                seq![]
            };
            formatted(ResponseV::Cursor { cursor_id, rows, row_count, has_more, meta }) == table
                + "("@ + decimal(row_count as nat) + " rows, cursor: "@ + short_id(cursor_id)
                + ", has_more: "@ + if has_more {
                "true"@
            } else {
                "false"@
            } + ")"@
        }),
        utf8_len(cursor_id) <= 8 ==> short_id(cursor_id) == cursor_id,
{
    if rows.len() > 0 {
        assert(attrs(rows[0]).len() == rows[0].len());
    }
}

} // verus!
