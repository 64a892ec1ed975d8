//! S-expressions as the `sexp` crate reads them, held as plain values.
//!
//! The reader itself is the `sexp` crate; its result comes back as a
//! pre-order stream of tokens, from which a verified decoder rebuilds the tree.

use vstd::prelude::*;
use sexp::Atom;
use crate::text::{decimal, decimal_signed, owned, push_decimal, push_decimal_signed};

verus! {

/// An atom of an S-expression.
pub enum SexpAtom {
    /// A symbol or quoted string: its characters, and the form in which the
    /// reader prints it (quoted when it has to be).
    Str { value: String, printed: String },
    /// An integer atom.
    Int(i64),
    /// A floating-point atom, held as the text the reader prints for it.
    Float(String),
}

/// An S-expression: an atom or a list. A list keeps the text the reader
/// prints for it.
pub enum Sexp {
    Atom(SexpAtom),
    List { items: Vec<Sexp>, printed: String },
}

/// One step of a pre-order walk over an S-expression: a list of `len` items
/// (which follow it), or an atom.
pub enum SexpToken {
    Open { len: usize, printed: String },
    Leaf(SexpAtom),
}

/// The value of an atom.
pub enum AtomV {
    Str(Seq<char>, Seq<char>),
    Int(i64),
    Float(Seq<char>),
}

/// The value of an S-expression.
pub enum TreeV {
    Atom(AtomV),
    List(Seq<TreeV>, Seq<char>),
}

/// The value of a token.
pub enum TokenV {
    Open(nat, Seq<char>),
    Leaf(AtomV),
}

impl View for SexpAtom {
    type V = AtomV;

    open spec fn view(&self) -> AtomV {
        match self {
            SexpAtom::Str { value, printed } => AtomV::Str(value@, printed@),
            SexpAtom::Int(n) => AtomV::Int(*n),
            SexpAtom::Float(f) => AtomV::Float(f@),
        }
    }
}

impl Sexp {
    /// The value of this S-expression.
    pub open spec fn tree(self) -> TreeV
        decreases self,
    {
        match self {
            Sexp::Atom(a) => TreeV::Atom(a@),
            Sexp::List { items, printed } => TreeV::List(
                Seq::new(
                    items@.len(),
                    |i: int|
                        {
                            if 0 <= i < items@.len() {
                                proof {
                                    assert(decreases_to!(self => items@[i]));
                                }
                                items@[i].tree()
                            } else {
                                TreeV::List(seq![], seq![])
                            }
                        },
                ),
                printed@,
            ),
        }
    }
}

impl View for Sexp {
    type V = TreeV;

    open spec fn view(&self) -> TreeV {
        self.tree()
    }
}

impl View for SexpToken {
    type V = TokenV;

    open spec fn view(&self) -> TokenV {
        match self {
            SexpToken::Open { len, printed } => TokenV::Open(*len as nat, printed@),
            SexpToken::Leaf(a) => TokenV::Leaf(a@),
        }
    }
}

/// The values of a sequence of tokens.
pub open spec fn tokens_view(ts: Seq<SexpToken>) -> Seq<TokenV> {
    ts.map_values(|t: SexpToken| t@)
}

/// What `sexp::parse` makes of a text: the tokens of a pre-order walk over the
/// expression it reads, or the message of the error it reports.
pub uninterp spec fn sexp_parse(text: Seq<char>) -> Result<Seq<TokenV>, Seq<char>>;

/// Calls `sexp::parse` on `text`. On success the parsed expression is walked
/// in pre-order: a list gives an `Open` token with its item count and its
/// printed form (`Display`) followed by the tokens of its items, an atom a
/// `Leaf`; a float atom is kept as its `Display` text. On failure the error's
/// `Display` text is returned. The contract only names this result: it is a
/// function of the text alone. Left unsaid: the reader and the printer
/// recurse once per level of nesting, so a text nested deeply enough to
/// exhaust the stack does not return.
#[verifier::external_body]
fn sexp_tokens(text: &str) -> (res: Result<Vec<SexpToken>, String>)
    ensures
        sexp_parse(text@) == match res {
            Ok(ts) => Ok(tokens_view(ts@)),
            Err(e) => Err(e@),
        },
{
    let root = sexp::parse(text).map_err(|e| e.to_string())?;
    let (mut out, mut todo) = (Vec::new(), vec![&root]);
    while let Some(node) = todo.pop() {
        out.push(match node {
            sexp::Sexp::List(xs) => {
                todo.extend(xs.iter().rev());
                SexpToken::Open { len: xs.len(), printed: node.to_string() } }
            sexp::Sexp::Atom(a) => SexpToken::Leaf(match a {
                Atom::S(s) => SexpAtom::Str { value: s.clone(), printed: node.to_string() },
                Atom::I(n) => SexpAtom::Int(*n),
                Atom::F(f) => SexpAtom::Float(f.to_string())
            })
        });
    }
    Ok(out)
}

// ---------------------------------------------------------------------------
// Rebuilding the tree from its pre-order tokens
// ---------------------------------------------------------------------------

/// The expression whose tokens start at `pos`, and the position after them.
pub open spec fn decode_at(ts: Seq<TokenV>, pos: int) -> (TreeV, int)
    decreases ts.len() - pos, 0int, 0nat,
{
    if pos < 0 || pos >= ts.len() {
        (TreeV::List(seq![], seq![]), ts.len() as int)
    } else {
        match ts[pos] {
            TokenV::Leaf(a) => (TreeV::Atom(a), pos + 1),
            TokenV::Open(n, printed) => {
                let (xs, end) = decode_items(ts, pos + 1, n);
                (TreeV::List(xs, printed), end)
            },
        }
    }
}

/// Up to `n` consecutive expressions whose tokens start at `pos`, and the
/// position after them.
pub open spec fn decode_items(ts: Seq<TokenV>, pos: int, n: nat) -> (Seq<TreeV>, int)
    decreases ts.len() - pos, 1int, n,
{
    if n == 0 || pos < 0 || pos >= ts.len() {
        (seq![], pos)
    } else {
        let (x, next) = decode_at(ts, pos);
        let next = if pos < next <= ts.len() {
            next
        } else {
            ts.len() as int
        };
        let (xs, end) = decode_items(ts, next, (n - 1) as nat);
        (seq![x] + xs, end)
    }
}

/// The expression a token stream encodes.
pub open spec fn decode_root(ts: Seq<TokenV>) -> TreeV {
    decode_at(ts, 0).0
}

/// What `sexp::parse` reads from a text, as a tree.
pub open spec fn sexp_read(text: Seq<char>) -> Result<TreeV, Seq<char>> {
    match sexp_parse(text) {
        Ok(ts) => Ok(decode_root(ts)),
        Err(e) => Err(e),
    }
}

/// A copy of an atom.
pub fn clone_atom(a: &SexpAtom) -> (r: SexpAtom)
    ensures
        r@ == a@,
{
    match a {
        SexpAtom::Str { value, printed } => SexpAtom::Str {
            value: value.clone(),
            printed: printed.clone(),
        },
        SexpAtom::Int(n) => SexpAtom::Int(*n),
        SexpAtom::Float(f) => SexpAtom::Float(f.clone()),
    }
}

/// Rebuilds the expression whose tokens start at `pos`.
fn decode_at_exec(ts: &Vec<SexpToken>, pos: usize) -> (r: (Sexp, usize))
    ensures
        r.0@ == decode_at(tokens_view(ts@), pos as int).0,
        r.1 as int == decode_at(tokens_view(ts@), pos as int).1,
    decreases ts.len() - pos,
{
    let ghost tv = tokens_view(ts@);
    if pos >= ts.len() {
        let items: Vec<Sexp> = Vec::new();
        let printed = String::new();
        let r = Sexp::List { items, printed };
        proof {
            assert(r@ == TreeV::List(seq![], seq![])) by {
                assert(r.tree()->List_0 =~= Seq::<TreeV>::empty());
            }
        }
        return (r, ts.len());
    }
    match &ts[pos] {
        SexpToken::Leaf(a) => {
            let r = Sexp::Atom(clone_atom(a));
            (r, pos + 1)
        },
        SexpToken::Open { len, printed } => {
            let n = *len;
            let mut items: Vec<Sexp> = Vec::new();
            let mut cur = pos + 1;
            let mut k: usize = 0;
            proof {
                assert(tv[pos as int] == ts@[pos as int]@);
            }
            while k < n && cur < ts.len()
                invariant
                    tv == tokens_view(ts@),
                    pos < cur <= ts.len(),
                    k <= n,
                    ({
                        let (rest, e) = decode_items(tv, cur as int, (n - k) as nat);
                        decode_items(tv, pos + 1, n as nat) == (
                            Seq::new(items@.len(), |i: int| items@[i]@) + rest,
                            e,
                        )
                    }),
                decreases n - k,
            {
                let (x, next) = decode_at_exec(ts, cur);
                let next2 = if cur < next && next <= ts.len() {
                    next
                } else {
                    ts.len()
                };
                proof {
                    let (rest, e) = decode_items(tv, cur as int, (n - k) as nat);
                    let (rest2, e2) = decode_items(tv, next2 as int, (n - k - 1) as nat);
                    assert(rest == seq![x@] + rest2);
                    let old_items = Seq::new(items@.len(), |i: int| items@[i]@);
                    let new_items = Seq::new(items@.len() + 1, |i: int| items@.push(x)[i]@);
                    assert(new_items =~= old_items + seq![x@]);
                    assert(old_items + rest == new_items + rest2);
                }
                items.push(x);
                cur = next2;
                k = k + 1;
            }
            let r = Sexp::List { items, printed: printed.clone() };
            proof {
                let (rest, e) = decode_items(tv, cur as int, (n - k) as nat);
                assert(rest == Seq::<TreeV>::empty());
                assert(r.tree()->List_0 =~= Seq::new(items@.len(), |i: int| items@[i]@));
            }
            (r, cur)
        },
    }
}

/// Reads the S-expression in `text` with the `sexp` crate.
pub fn read_sexp(text: &str) -> (res: Result<Sexp, String>)
    ensures
        sexp_read(text@) == match res {
            Ok(t) => Ok(t@),
            Err(e) => Err(e@),
        },
{
    match sexp_tokens(text) {
        Ok(ts) => Ok(decode_tokens(&ts)),
        Err(e) => Err(e),
    }
}

/// Rebuilds the expression a pre-order token stream encodes.
pub fn decode_tokens(ts: &Vec<SexpToken>) -> (r: Sexp)
    ensures
        r@ == decode_root(tokens_view(ts@)),
{
    let (t, _) = decode_at_exec(ts, 0);
    t
}

// ---------------------------------------------------------------------------
// Reading atoms
// ---------------------------------------------------------------------------

/// The text of an atom (`None` for a list): a string's characters, an
/// integer in decimal, a float as printed.
pub open spec fn atom_text(t: TreeV) -> Option<Seq<char>> {
    match t {
        TreeV::Atom(AtomV::Str(v, _)) => Some(v),
        TreeV::Atom(AtomV::Int(n)) => Some(decimal_signed(n as int)),
        TreeV::Atom(AtomV::Float(f)) => Some(f),
        TreeV::List(..) => None,
    }
}

/// The text of an atom, or a short description of a list.
pub open spec fn atom_text_or_summary(t: TreeV) -> Seq<char> {
    match t {
        TreeV::List(xs, _) => "(list with "@ + decimal(xs.len()) + " items)"@,
        _ => atom_text(t).unwrap(),
    }
}

/// How the reader prints an expression.
pub open spec fn printed(t: TreeV) -> Seq<char> {
    match t {
        TreeV::Atom(AtomV::Str(_, p)) => p,
        TreeV::Atom(AtomV::Int(n)) => decimal_signed(n as int),
        TreeV::Atom(AtomV::Float(f)) => f,
        TreeV::List(_, p) => p,
    }
}

/// The text of an atom; `None` for a list.
pub fn atom_string(t: &Sexp) -> (r: Option<String>)
    ensures
        match r {
            Some(s) => atom_text(t@) == Some(s@),
            None => atom_text(t@) is None,
        },
{
    match t {
        Sexp::Atom(SexpAtom::Str { value, .. }) => Some(value.clone()),
        Sexp::Atom(SexpAtom::Int(n)) => {
            let mut s = String::new();
            push_decimal_signed(&mut s, *n);
            Some(s)
        },
        Sexp::Atom(SexpAtom::Float(f)) => Some(f.clone()),
        Sexp::List { .. } => None,
    }
}

/// The text of an atom, or `(list with N items)` for a list.
pub fn atom_string_debug(t: &Sexp) -> (r: String)
    ensures
        r@ == atom_text_or_summary(t@),
{
    match t {
        Sexp::List { items, .. } => {
            let mut s = owned("(list with ");
            push_decimal(&mut s, items.len() as u64);
            s.append(" items)");
            proof {
                reveal_strlit("(list with ");
                reveal_strlit(" items)");
                assert(t@->List_0.len() == items@.len());
            }
            s
        },
        _ => {
            let r = atom_string(t);
            match r {
                Some(s) => s,
                None => String::new(),
            }
        },
    }
}

/// Appends the printed form of an expression to `out`.
pub fn push_printed(out: &mut String, t: &Sexp)
    ensures
        final(out)@ == old(out)@ + printed(t@),
{
    match t {
        Sexp::Atom(SexpAtom::Str { printed, .. }) => out.append(printed.as_str()),
        Sexp::Atom(SexpAtom::Int(n)) => push_decimal_signed(out, *n),
        Sexp::Atom(SexpAtom::Float(f)) => out.append(f.as_str()),
        Sexp::List { printed, .. } => out.append(printed.as_str()),
    }
}

} // verus!
