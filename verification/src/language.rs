//! Envelope-aware input classification and rewriting for the Sakura
//! S-expression protocol.  Commands sent to the server are `(tag payload...)`
//! where `tag` is one of the sublanguages.

use vstd::prelude::*;
use crate::sexpr::{read_sexp, sexp_read, AtomV, Sexp, SexpAtom, TreeV};
use crate::text::{str_eq, trim, trim_str};

verus! {

/// The sublanguages a command envelope can name.
#[derive(Debug, Clone, Copy, PartialEq, Eq, Structural)]
pub enum Tag {
    Drl,
    Ddl,
    Dml,
    Icl,
    Dcl,
    Scl,
}

/// The name of a sublanguage as it is written in an envelope.
pub open spec fn tag_name(t: Tag) -> Seq<char> {
    match t {
        Tag::Drl => "drl"@,
        Tag::Ddl => "ddl"@,
        Tag::Dml => "dml"@,
        Tag::Icl => "icl"@,
        Tag::Dcl => "dcl"@,
        Tag::Scl => "scl"@,
    }
}

/// The sublanguage a name denotes, if any.
pub open spec fn tag_named(s: Seq<char>) -> Option<Tag> {
    if s == "drl"@ {
        Some(Tag::Drl)
    } else if s == "ddl"@ {
        Some(Tag::Ddl)
    } else if s == "dml"@ {
        Some(Tag::Dml)
    } else if s == "icl"@ {
        Some(Tag::Icl)
    } else if s == "dcl"@ {
        Some(Tag::Dcl)
    } else if s == "scl"@ {
        Some(Tag::Scl)
    } else {
        None
    }
}

impl Tag {
    /// The name of this sublanguage.
    pub fn as_str(&self) -> (r: &'static str)
        ensures
            r@ == tag_name(*self),
    {
        match self {
            Tag::Drl => "drl",
            Tag::Ddl => "ddl",
            Tag::Dml => "dml",
            Tag::Icl => "icl",
            Tag::Dcl => "dcl",
            Tag::Scl => "scl",
        }
    }

    /// The sublanguage named `s`, if any.
    pub fn from_str(s: &str) -> (r: Option<Tag>)
        ensures
            r == tag_named(s@),
    {
        if str_eq(s, "drl") {
            Some(Tag::Drl)
        } else if str_eq(s, "ddl") {
            Some(Tag::Ddl)
        } else if str_eq(s, "dml") {
            Some(Tag::Dml)
        } else if str_eq(s, "icl") {
            Some(Tag::Icl)
        } else if str_eq(s, "dcl") {
            Some(Tag::Dcl)
        } else if str_eq(s, "scl") {
            Some(Tag::Scl)
        } else {
            None
        }
    }
}

/// Two sequences that differ at some index are different.
proof fn lemma_differ_at(a: Seq<char>, b: Seq<char>, k: int)
    requires
        0 <= k < a.len(),
        k < b.len(),
        a[k] != b[k],
    ensures
        a != b,
{
}

/// Reading a sublanguage's name gives that sublanguage back.
pub proof fn lemma_tag_name_round_trip(t: Tag)
    ensures
        tag_named(tag_name(t)) == Some(t),
{
    reveal_strlit("drl");
    reveal_strlit("ddl");
    reveal_strlit("dml");
    reveal_strlit("icl");
    reveal_strlit("dcl");
    reveal_strlit("scl");
    match t {
        Tag::Drl => {},
        Tag::Ddl => {
            lemma_differ_at("ddl"@, "drl"@, 1);
        },
        Tag::Dml => {
            lemma_differ_at("dml"@, "drl"@, 1);
            lemma_differ_at("dml"@, "ddl"@, 1);
        },
        Tag::Icl => {
            lemma_differ_at("icl"@, "drl"@, 0);
            lemma_differ_at("icl"@, "ddl"@, 0);
            lemma_differ_at("icl"@, "dml"@, 0);
        },
        Tag::Dcl => {
            lemma_differ_at("dcl"@, "drl"@, 1);
            lemma_differ_at("dcl"@, "ddl"@, 1);
            lemma_differ_at("dcl"@, "dml"@, 1);
            lemma_differ_at("dcl"@, "icl"@, 0);
        },
        Tag::Scl => {
            lemma_differ_at("scl"@, "drl"@, 0);
            lemma_differ_at("scl"@, "ddl"@, 0);
            lemma_differ_at("scl"@, "dml"@, 0);
            lemma_differ_at("scl"@, "icl"@, 0);
            lemma_differ_at("scl"@, "dcl"@, 0);
        },
    }
}

/// What a piece of user input is.
#[derive(Debug)]
pub enum InputClassification {
    /// Well-formed envelope with a known sublanguage tag.
    Envelope(Tag),
    /// Looks like `(tag ...)` but the tag is not a known sublanguage.
    UnknownTag(String),
    /// Not in envelope form — the server's legacy cascade parser will handle it.
    Legacy,
    /// A recognised client-side shortcut; the `String` is the replacement to send.
    Shortcut(String),
    /// The input is not valid S-expression syntax.
    MalformedSexp(String),
}

/// The value of a classification.
pub enum ClassificationV {
    Envelope(Tag),
    UnknownTag(Seq<char>),
    Legacy,
    Shortcut(Seq<char>),
    MalformedSexp(Seq<char>),
}

impl View for InputClassification {
    type V = ClassificationV;

    open spec fn view(&self) -> ClassificationV {
        match self {
            InputClassification::Envelope(t) => ClassificationV::Envelope(*t),
            InputClassification::UnknownTag(s) => ClassificationV::UnknownTag(s@),
            InputClassification::Legacy => ClassificationV::Legacy,
            InputClassification::Shortcut(s) => ClassificationV::Shortcut(s@),
            InputClassification::MalformedSexp(s) => ClassificationV::MalformedSexp(s@),
        }
    }
}

/// The one client-side shortcut.
pub open spec fn schema_shortcut() -> Seq<char> {
    "(schema)"@
}

/// What the shortcut stands for.
pub open spec fn schema_query() -> Seq<char> {
    "(drl (Base sakura:attribute))"@
}

/// The class of a parsed S-expression: a list whose first item is a string
/// atom is an envelope (known or unknown tag); anything else is legacy input.
pub open spec fn classify_tree(t: TreeV) -> ClassificationV {
    match t {
        TreeV::List(items, _) => if items.len() > 0 {
            match items[0] {
                TreeV::Atom(AtomV::Str(tag, _)) => match tag_named(tag) {
                    Some(g) => ClassificationV::Envelope(g),
                    None => ClassificationV::UnknownTag(tag),
                },
                _ => ClassificationV::Legacy,
            }
        } else {
            ClassificationV::Legacy
        },
        _ => ClassificationV::Legacy,
    }
}

/// The class of raw user input: the trimmed input is either the shortcut, not
/// an S-expression (with the reader's error message), or classified by shape.
pub open spec fn classification(input: Seq<char>) -> ClassificationV {
    let t = trim(input);
    if t == schema_shortcut() {
        ClassificationV::Shortcut(schema_query())
    } else {
        match sexp_read(t) {
            Err(e) => ClassificationV::MalformedSexp(e),
            Ok(tree) => classify_tree(tree),
        }
    }
}

/// Input with the shortcut replaced by what it stands for.
pub open spec fn rewritten(input: Seq<char>) -> Seq<char> {
    if trim(input) == schema_shortcut() {
        schema_query()
    } else {
        input
    }
}

/// Classify raw user input without coupling to each sublanguage's AST.
pub fn classify(input: &str) -> (r: InputClassification)
    ensures
        r@ == classification(input@),
{
    let trimmed = trim_str(input);

    // Client-side shortcuts
    if str_eq(trimmed.as_str(), "(schema)") {
        let r = InputClassification::Shortcut(String::from_str("(drl (Base sakura:attribute))"));
        return r;
    }
    // Try to parse as an S-expression
    match read_sexp(trimmed.as_str()) {
        Ok(sexp) => classify_sexp(&sexp),
        Err(e) => InputClassification::MalformedSexp(e),
    }
}

/// Classifies a parsed S-expression by its shape: `(tag payload...)` with a
/// string atom for `tag` is an envelope, anything else legacy input.
pub fn classify_sexp(sexp: &Sexp) -> (r: InputClassification)
    ensures
        r@ == classify_tree(sexp@),
{
    // Check for envelope shape: (tag payload...)
    if let Sexp::List { items, .. } = sexp {
        if items.len() > 0 {
            if let Sexp::Atom(SexpAtom::Str { value, .. }) = &items[0] {
                proof {
                    assert(sexp@->List_0[0] == items@[0]@);
                }
                return match Tag::from_str(value.as_str()) {
                    Some(t) => InputClassification::Envelope(t),
                    None => InputClassification::UnknownTag(value.clone()),
                };
            }
            proof {
                assert(sexp@->List_0[0] == items@[0]@);
            }
        }
    }
    InputClassification::Legacy
}

/// Rewrite client shortcuts, passing everything else through unchanged.
pub fn rewrite(input: &str) -> (r: String)
    ensures
        r@ == rewritten(input@),
{
    let trimmed = trim_str(input);
    // Fast path: only known shortcut is (schema)
    if str_eq(trimmed.as_str(), "(schema)") {
        String::from_str("(drl (Base sakura:attribute))")
    } else {
        String::from_str(input)
    }
}

/// Rewriting replaces exactly what classification calls a shortcut, by the
/// replacement the classification names, and leaves all other input as it is.
pub proof fn lemma_rewrite_agrees_with_classify(input: Seq<char>)
    ensures
        classification(input) is Shortcut ==> rewritten(input) == classification(
            input,
        )->Shortcut_0,
        !(classification(input) is Shortcut) ==> rewritten(input) == input,
{
    let t = trim(input);
    if t != schema_shortcut() {
        match sexp_read(t) {
            Err(e) => {},
            Ok(tree) => {
                match tree {
                    TreeV::List(items, _) => {
                        if items.len() > 0 {
                            match items[0] {
                                TreeV::Atom(AtomV::Str(tag, _)) => match tag_named(tag) {
                                    Some(g) => {},
                                    None => {},
                                },
                                _ => {},
                            }
                        }
                    },
                    _ => {},
                }
            },
        }
    }
}

/// A list whose first item is the symbol naming a sublanguage is an
/// envelope of that sublanguage, whatever follows the name.
pub proof fn law_known_tag_is_envelope(t: Tag, p: Seq<char>, xs: Seq<TreeV>, q: Seq<char>)
    ensures
        classify_tree(TreeV::List(seq![TreeV::Atom(AtomV::Str(tag_name(t), p))] + xs, q))
            == ClassificationV::Envelope(t),
{
    lemma_tag_name_round_trip(t);
    let l = seq![TreeV::Atom(AtomV::Str(tag_name(t), p))] + xs;
    assert(l[0] == TreeV::Atom(AtomV::Str(tag_name(t), p)));
}

/// A list whose first item is a symbol that names no sublanguage has an
/// unknown tag: that symbol.
pub proof fn law_other_tag_is_unknown(name: Seq<char>, p: Seq<char>, xs: Seq<TreeV>, q: Seq<char>)
    requires
        forall|t: Tag| name != tag_name(t),
    ensures
        classify_tree(TreeV::List(seq![TreeV::Atom(AtomV::Str(name, p))] + xs, q))
            == ClassificationV::UnknownTag(name),
{
    assert(name != tag_name(Tag::Drl));
    assert(name != tag_name(Tag::Ddl));
    assert(name != tag_name(Tag::Dml));
    assert(name != tag_name(Tag::Icl));
    assert(name != tag_name(Tag::Dcl));
    assert(name != tag_name(Tag::Scl));
    let l = seq![TreeV::Atom(AtomV::Str(name, p))] + xs;
    assert(l[0] == TreeV::Atom(AtomV::Str(name, p)));
}

/// The symbol at the head of a list, if the expression is a list whose first
/// item is a symbol or string.
pub open spec fn list_head_symbol(t: TreeV) -> Option<Seq<char>> {
    match t {
        TreeV::List(items, _) => if items.len() > 0 {
            match items[0] {
                TreeV::Atom(AtomV::Str(n, _)) => Some(n),
                _ => None,
            }
        } else {
            None
        },
        _ => None,
    }
}

/// Input other than the shortcut that the reader reads as a list headed by
/// the name of a sublanguage classifies as an envelope of it.
pub proof fn law_input_with_known_tag_is_envelope(input: Seq<char>, t: Tag)
    requires
        trim(input) != schema_shortcut(),
        sexp_read(trim(input)) matches Ok(tree) && list_head_symbol(tree) == Some(tag_name(t)),
    ensures
        classification(input) == ClassificationV::Envelope(t),
{
    lemma_tag_name_round_trip(t);
}

/// Input is malformed exactly when it is not the shortcut and the reader
/// refuses it (trimmed), with the reader's message; the shortcut, trimmed,
/// stands for the attribute query; and what the reader reads as anything but
/// a list headed by a symbol is legacy input.
pub proof fn law_classification_follows_the_reader(input: Seq<char>)
    ensures
        (classification(input) is MalformedSexp) <==> (trim(input) != schema_shortcut() && sexp_read(
            trim(input),
        ) is Err),
        trim(input) != schema_shortcut() && sexp_read(trim(input)) is Err ==> classification(input)
            == ClassificationV::MalformedSexp(sexp_read(trim(input))->Err_0),
        trim(input) == schema_shortcut() ==> classification(input) == ClassificationV::Shortcut(
            "(drl (Base sakura:attribute))"@,
        ),
        trim(input) != schema_shortcut() && sexp_read(trim(input)) is Ok && list_head_symbol(
            sexp_read(trim(input))->Ok_0,
        ) is None ==> classification(input) == ClassificationV::Legacy,
{
    let t = trim(input);
    if t != schema_shortcut() {
        match sexp_read(t) {
            Err(e) => {},
            Ok(tree) => {
                match tree {
                    TreeV::List(items, _) => {
                        if items.len() > 0 {
                            match items[0] {
                                TreeV::Atom(AtomV::Str(tag, _)) => match tag_named(tag) {
                                    Some(g) => {},
                                    None => {},
                                },
                                _ => {},
                            }
                        }
                    },
                    _ => {},
                }
            },
        }
    }
}

} // verus!
