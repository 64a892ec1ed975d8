//! Text primitives on character sequences: whitespace, trimming, decimal
//! numbers, line counting and UTF-8 widths, each with its specification.

use vstd::prelude::*;
use vstd::string::*;

verus! {

/// `String::push` appends one character. Like vstd's own specifications of
/// `String`, this leaves out running out of memory, where it panics.
pub assume_specification[ String::push ](s: &mut String, ch: char)
    ensures
        final(s)@ == old(s)@.push(ch),
;

// ---------------------------------------------------------------------------
// Conversions between strings and character vectors
// ---------------------------------------------------------------------------

/// The characters of `s`, in order.
pub fn chars_of(s: &str) -> (v: Vec<char>)
    ensures
        v@ == s@,
{
    let mut v: Vec<char> = Vec::new();
    for c in it: s.chars()
        invariant
            v@ == it.seq().take(it.index() as int),
    {
        v.push(c);
    }
    v
}

/// Appends the characters `cs[from..to]` to `out`.
pub fn push_range(out: &mut String, cs: &Vec<char>, from: usize, to: usize)
    requires
        from <= to <= cs.len(),
    ensures
        final(out)@ == old(out)@ + cs@.subrange(from as int, to as int),
{
    let mut i = from;
    while i < to
        invariant
            from <= i <= to <= cs.len(),
            out@ == old(out)@ + cs@.subrange(from as int, i as int),
        decreases to - i,
    {
        out.push(cs[i]);
        i = i + 1;
        proof {
            assert(cs@.subrange(from as int, i as int) == cs@.subrange(from as int, i - 1).push(
                cs@[i - 1],
            ));
        }
    }
}

/// A string holding exactly the characters of `cs`.
pub fn string_of(cs: &Vec<char>) -> (s: String)
    ensures
        s@ == cs@,
{
    let mut s = String::new();
    push_range(&mut s, cs, 0, cs.len());
    proof {
        assert(cs@.subrange(0, cs@.len() as int) == cs@);
    }
    s
}

/// A copy of `s` as an owned string.
pub fn owned(s: &str) -> (r: String)
    ensures
        r@ == s@,
{
    s.to_owned()
}

/// `a` followed by `b`.
pub fn concat(a: &str, b: &str) -> (r: String)
    ensures
        r@ == a@ + b@,
{
    let mut r = a.to_owned();
    r.append(b);
    r
}

/// Whether two strings hold the same characters.
pub fn str_eq(a: &str, b: &str) -> (r: bool)
    ensures
        r == (a@ == b@),
{
    let x = chars_of(a);
    let y = chars_of(b);
    if x.len() != y.len() {
        return false;
    }
    let mut i: usize = 0;
    while i < x.len()
        invariant
            x.len() == y.len(),
            x@ == a@,
            y@ == b@,
            i <= x.len(),
            forall|j: int| 0 <= j < i ==> x@[j] == y@[j],
        decreases x.len() - i,
    {
        if x[i] != y[i] {
            return false;
        }
        i = i + 1;
    }
    proof {
        assert(x@ =~= y@);
    }
    true
}

// ---------------------------------------------------------------------------
// Whitespace and trimming
// ---------------------------------------------------------------------------

/// The characters with the Unicode `White_Space` property, which is what
/// `char::is_whitespace`, `str::trim` and `str::split_whitespace` use.
pub open spec fn is_ws(c: char) -> bool {
    let u = c as u32;
    ||| 9 <= u <= 13
    ||| u == 32
    ||| u == 0x85
    ||| u == 0xa0
    ||| u == 0x1680
    ||| 0x2000 <= u <= 0x200a
    ||| u == 0x2028
    ||| u == 0x2029
    ||| u == 0x202f
    ||| u == 0x205f
    ||| u == 0x3000
}

/// Whether `c` is Unicode whitespace.
pub fn is_whitespace(c: char) -> (r: bool)
    ensures
        r == is_ws(c),
{
    let u = c as u32;
    (9 <= u && u <= 13) || u == 32 || u == 0x85 || u == 0xa0 || u == 0x1680 || (0x2000 <= u && u
        <= 0x200a) || u == 0x2028 || u == 0x2029 || u == 0x202f || u == 0x205f || u == 0x3000
}

/// `s` without its leading whitespace.
pub open spec fn trim_start(s: Seq<char>) -> Seq<char>
    decreases s.len(),
{
    if s.len() > 0 && is_ws(s[0]) {
        trim_start(s.drop_first())
    } else {
        s
    }
}

/// `s` without its trailing whitespace.
pub open spec fn trim_end(s: Seq<char>) -> Seq<char>
    decreases s.len(),
{
    if s.len() > 0 && is_ws(s.last()) {
        trim_end(s.drop_last())
    } else {
        s
    }
}

/// `s` without leading and trailing whitespace (`str::trim`).
pub open spec fn trim(s: Seq<char>) -> Seq<char> {
    trim_end(trim_start(s))
}

/// Index of the first character of `cs` that is not whitespace (or its length).
fn trim_start_index(cs: &Vec<char>) -> (i: usize)
    ensures
        i <= cs.len(),
        trim_start(cs@) == cs@.subrange(i as int, cs@.len() as int),
{
    let mut i: usize = 0;
    proof {
        assert(cs@.subrange(0, cs@.len() as int) == cs@);
    }
    while i < cs.len() && is_whitespace(cs[i])
        invariant
            i <= cs.len(),
            trim_start(cs@) == trim_start(cs@.subrange(i as int, cs@.len() as int)),
        decreases cs.len() - i,
    {
        proof {
            let t = cs@.subrange(i as int, cs@.len() as int);
            assert(t.drop_first() == cs@.subrange(i + 1, cs@.len() as int));
        }
        i = i + 1;
    }
    i
}

/// Index just past the last character of `cs[from..]` that is not whitespace.
fn trim_end_index(cs: &Vec<char>, from: usize) -> (j: usize)
    requires
        from <= cs.len(),
    ensures
        from <= j <= cs.len(),
        trim_end(cs@.subrange(from as int, cs@.len() as int)) == cs@.subrange(
            from as int,
            j as int,
        ),
{
    let mut j: usize = cs.len();
    while j > from && is_whitespace(cs[j - 1])
        invariant
            from <= j <= cs.len(),
            trim_end(cs@.subrange(from as int, cs@.len() as int)) == trim_end(
                cs@.subrange(from as int, j as int),
            ),
        decreases j,
    {
        proof {
            let t = cs@.subrange(from as int, j as int);
            assert(t.drop_last() == cs@.subrange(from as int, j - 1));
        }
        j = j - 1;
    }
    j
}

/// `s` without leading and trailing whitespace.
pub fn trim_str(s: &str) -> (r: String)
    ensures
        r@ == trim(s@),
{
    let cs = chars_of(s);
    let i = trim_start_index(&cs);
    let j = trim_end_index(&cs, i);
    let mut r = String::new();
    push_range(&mut r, &cs, i, j);
    r
}

// ---------------------------------------------------------------------------
// Decimal numbers
// ---------------------------------------------------------------------------

/// The character of the decimal digit `d`.
pub open spec fn digit_char(d: nat) -> char {
    (48 + d) as char
}

/// The decimal representation of `n`, without leading zeros.
pub open spec fn decimal(n: nat) -> Seq<char>
    decreases n,
{
    if n < 10 {
        seq![digit_char(n)]
    } else {
        decimal(n / 10).push(digit_char(n % 10))
    }
}

/// The decimal representation of a signed integer, with a leading `-` when negative.
pub open spec fn decimal_signed(n: int) -> Seq<char> {
    if n < 0 {
        seq!['-'] + decimal((-n) as nat)
    } else {
        decimal(n as nat)
    }
}

/// Appends the decimal representation of `n` to `out`.
pub fn push_decimal(out: &mut String, n: u64)
    ensures
        final(out)@ == old(out)@ + decimal(n as nat),
    decreases n,
{
    if n >= 10 {
        push_decimal(out, n / 10);
    }
    let d = (n % 10) as u8;
    let c = (48u8 + d) as char;
    proof {
        assert(c == digit_char((n % 10) as nat));
    }
    out.push(c);
}

/// Appends the decimal representation of the signed `n` to `out`.
pub fn push_decimal_signed(out: &mut String, n: i64)
    ensures
        final(out)@ == old(out)@ + decimal_signed(n as int),
{
    if n < 0 {
        out.push('-');
        let m: i128 = -(n as i128);
        push_decimal(out, m as u64);
        proof {
            assert(old(out)@.push('-') + decimal((-n) as nat) == old(out)@ + (seq!['-'] + decimal(
                (-n) as nat,
            )));
        }
    } else {
        push_decimal(out, n as u64);
    }
}

/// Whether `c` is an ASCII decimal digit.
pub open spec fn is_digit(c: char) -> bool {
    48 <= c as u32 <= 57
}

/// The value of a sequence of decimal digits.
pub open spec fn digits_value(s: Seq<char>) -> nat
    decreases s.len(),
{
    if s.len() == 0 {
        0
    } else {
        digits_value(s.drop_last()) * 10 + ((s.last() as u32) - 48) as nat
    }
}

/// A nonempty run of decimal digits whose value fits in a `u32`.
pub open spec fn parse_digits_u32(d: Seq<char>) -> Option<u32> {
    if d.len() > 0 && (forall|i: int| 0 <= i < d.len() ==> is_digit(#[trigger] d[i])) && digits_value(
        d,
    ) <= u32::MAX {
        Some(digits_value(d) as u32)
    } else {
        None
    }
}

/// What `u32::from_str` accepts: an optional `+` followed by one or more
/// decimal digits whose value fits in a `u32`.
pub open spec fn parse_u32(s: Seq<char>) -> Option<u32> {
    if s.len() > 1 && s[0] == '+' {
        parse_digits_u32(s.drop_first())
    } else {
        parse_digits_u32(s)
    }
}

/// Parses a `u32` the way `str::parse::<u32>` does.
pub fn parse_u32_str(s: &str) -> (r: Option<u32>)
    ensures
        r == parse_u32(s@),
{
    let cs = chars_of(s);
    let start: usize = if cs.len() > 1 && cs[0] == '+' {
        1
    } else {
        0
    };
    let ghost d = cs@.subrange(start as int, cs@.len() as int);
    proof {
        if cs.len() > 1 && cs@[0] == '+' {
            assert(d == cs@.drop_first());
        } else {
            assert(d == cs@);
        }
    }
    if start == cs.len() {
        return None;
    }
    // `val` is the value of the digits read so far, capped at `CAP`.
    let cap: u64 = 0x1_0000_0000;
    let mut val: u64 = 0;
    let mut i = start;
    while i < cs.len()
        invariant
            start <= i <= cs.len(),
            cap == 0x1_0000_0000,
            cs@ == s@,
            d == cs@.subrange(start as int, cs@.len() as int),
            d == if s@.len() > 1 && s@[0] == '+' {
                s@.drop_first()
            } else {
                s@
            },
            forall|k: int| start <= k < i ==> is_digit(#[trigger] cs@[k]),
            val == if digits_value(cs@.subrange(start as int, i as int)) < cap {
                digits_value(cs@.subrange(start as int, i as int))
            } else {
                cap as nat
            },
        decreases cs.len() - i,
    {
        let c = cs[i];
        let u = c as u32;
        proof {
            assert(d[i - start] == c);
        }
        if u < 48 || u > 57 {
            proof {
                assert(!is_digit(d[i - start]));
            }
            return None;
        }
        proof {
            let p = cs@.subrange(start as int, i + 1);
            assert(p.drop_last() == cs@.subrange(start as int, i as int));
            assert(p.last() == c);
        }
        let digit = (u - 48) as u64;
        if val >= cap {
            val = cap;
        } else {
            val = val * 10 + digit;
            if val > cap {
                val = cap;
            }
        }
        i = i + 1;
    }
    proof {
        assert(cs@.subrange(start as int, cs@.len() as int) == d);
        assert forall|k: int| 0 <= k < d.len() implies is_digit(#[trigger] d[k]) by {
            assert(d[k] == cs@[start + k]);
        }
    }
    if val >= cap {
        None
    } else {
        Some(val as u32)
    }
}

// ---------------------------------------------------------------------------
// Lines
// ---------------------------------------------------------------------------

/// How many times `c` occurs in `s`.
pub open spec fn count_char(s: Seq<char>, c: char) -> nat
    decreases s.len(),
{
    if s.len() == 0 {
        0
    } else {
        count_char(s.drop_last(), c) + if s.last() == c {
            1nat
        } else {
            0nat
        }
    }
}

/// The number of lines `str::lines` yields: one per line feed, plus one for a
/// final line that has no line feed after it.
pub open spec fn line_count(s: Seq<char>) -> nat {
    count_char(s, '\n') + if s.len() > 0 && s.last() != '\n' {
        1nat
    } else {
        0nat
    }
}

/// A character occurs at most as often as the sequence is long.
pub proof fn lemma_count_char_bound(s: Seq<char>, c: char)
    ensures
        count_char(s, c) <= s.len(),
    decreases s.len(),
{
    if s.len() > 0 {
        lemma_count_char_bound(s.drop_last(), c);
    }
}

/// The number of line feeds in `s`.
pub fn count_line_feeds(s: &str) -> (n: usize)
    ensures
        n as nat == count_char(s@, '\n'),
{
    let cs = chars_of(s);
    let mut n: usize = 0;
    let mut i: usize = 0;
    while i < cs.len()
        invariant
            i <= cs.len(),
            n as nat == count_char(cs@.subrange(0, i as int), '\n'),
            n <= i,
        decreases cs.len() - i,
    {
        proof {
            assert(cs@.subrange(0, i + 1).drop_last() == cs@.subrange(0, i as int));
        }
        if cs[i] == '\n' {
            n = n + 1;
        }
        i = i + 1;
    }
    proof {
        assert(cs@.subrange(0, cs@.len() as int) == cs@);
    }
    n
}

/// The number of lines of `s`, as `s.lines().count()` gives it.
pub fn count_lines(s: &str) -> (n: usize)
    ensures
        n as nat == line_count(s@),
{
    let n = count_line_feeds(s);
    let cs = chars_of(s);
    if cs.len() > 0 && cs[cs.len() - 1] != '\n' {
        proof {
            lemma_count_char_bound(cs@.drop_last(), '\n');
            assert(count_char(cs@, '\n') == count_char(cs@.drop_last(), '\n'));
        }
        n + 1
    } else {
        n
    }
}

/// Where the line of `s` that starts at `i` ends: the index of the next line
/// feed at or after `i`, if any.
pub open spec fn find_char_from(s: Seq<char>, c: char, i: int) -> Option<int>
    decreases s.len() - i,
{
    if i < 0 || i >= s.len() {
        None
    } else if s[i] == c {
        Some(i)
    } else {
        find_char_from(s, c, i + 1)
    }
}

/// The index of the last occurrence of `c` in `s`, if any.
pub open spec fn last_index_of(s: Seq<char>, c: char) -> Option<int>
    decreases s.len(),
{
    if s.len() == 0 {
        None
    } else if s.last() == c {
        Some(s.len() - 1)
    } else {
        last_index_of(s.drop_last(), c)
    }
}

/// A line without the carriage return that ends it, if it has one.
pub open spec fn strip_cr(l: Seq<char>) -> Seq<char> {
    if l.len() > 0 && l.last() == '\r' {
        l.drop_last()
    } else {
        l
    }
}

/// The lines `str::lines` yields: the text between line feeds, each without a
/// carriage return just before its line feed; a final line feed ends the last
/// line and starts no new one.
pub open spec fn lines(s: Seq<char>) -> Seq<Seq<char>>
    decreases s.len(),
{
    if s.len() == 0 {
        seq![]
    } else {
        match find_char_from(s, '\n', 0) {
            None => seq![s],
            Some(k) => if 0 <= k < s.len() {
                seq![strip_cr(s.take(k))] + lines(s.skip(k + 1))
            } else {
                seq![]
            },
        }
    }
}

/// Whether `c` occurs in `s`.
pub fn contains_char(s: &str, c: char) -> (r: bool)
    ensures
        r == s@.contains(c),
{
    let cs = chars_of(s);
    let mut i: usize = 0;
    while i < cs.len()
        invariant
            i <= cs.len(),
            cs@ == s@,
            forall|k: int| 0 <= k < i ==> cs@[k] != c,
        decreases cs.len() - i,
    {
        if cs[i] == c {
            return true;
        }
        i = i + 1;
    }
    false
}

/// Whether `s` ends with `suffix`.
pub open spec fn has_suffix(s: Seq<char>, suffix: Seq<char>) -> bool {
    suffix.len() <= s.len() && s.subrange(s.len() - suffix.len(), s.len() as int) == suffix
}

/// Whether `s` ends with `suffix`.
pub fn ends_with(s: &str, suffix: &str) -> (r: bool)
    ensures
        r == has_suffix(s@, suffix@),
{
    let cs = chars_of(s);
    let xs = chars_of(suffix);
    if xs.len() > cs.len() {
        return false;
    }
    let off = cs.len() - xs.len();
    let mut i: usize = 0;
    while i < xs.len()
        invariant
            cs@ == s@,
            xs@ == suffix@,
            off + xs.len() == cs.len(),
            i <= xs.len(),
            forall|k: int| 0 <= k < i ==> cs@[off + k] == xs@[k],
        decreases xs.len() - i,
    {
        if cs[off + i] != xs[i] {
            proof {
                assert(s@.subrange(off as int, s@.len() as int)[i as int] != suffix@[i as int]);
            }
            return false;
        }
        i = i + 1;
    }
    proof {
        assert(s@.subrange(off as int, s@.len() as int) =~= suffix@);
    }
    true
}

// ---------------------------------------------------------------------------
// Words
// ---------------------------------------------------------------------------

/// The maximal runs of non-whitespace characters of `s`, in order
/// (`str::split_whitespace`).
pub open spec fn words(s: Seq<char>) -> Seq<Seq<char>>
    decreases s.len(),
{
    if s.len() == 0 {
        seq![]
    } else {
        let w = words(s.drop_last());
        let c = s.last();
        if is_ws(c) {
            w
        } else if s.len() >= 2 && !is_ws(s[s.len() - 2]) {
            w.drop_last().push(w.last().push(c))
        } else {
            w.push(seq![c])
        }
    }
}

/// The pieces of `parts` with `sep` between each two neighbours.
pub open spec fn join(parts: Seq<Seq<char>>, sep: Seq<char>) -> Seq<char>
    decreases parts.len(),
{
    if parts.len() == 0 {
        seq![]
    } else if parts.len() == 1 {
        parts[0]
    } else {
        join(parts.drop_last(), sep) + sep + parts.last()
    }
}

/// `s` with each run of whitespace replaced by a single space and none at
/// either end (`split_whitespace` joined by spaces).
pub open spec fn collapse_whitespace(s: Seq<char>) -> Seq<char> {
    join(words(s), seq![' '])
}

/// Every word is nonempty, and a sequence ending in a non-whitespace
/// character has at least one word.
proof fn lemma_words_nonempty(s: Seq<char>)
    ensures
        forall|k: int| 0 <= k < words(s).len() ==> #[trigger] words(s)[k].len() > 0,
        s.len() > 0 && !is_ws(s.last()) ==> words(s).len() > 0,
    decreases s.len(),
{
    if s.len() > 0 {
        let w = words(s.drop_last());
        let c = s.last();
        lemma_words_nonempty(s.drop_last());
        if is_ws(c) {
        } else if s.len() >= 2 && !is_ws(s[s.len() - 2]) {
            assert(s.drop_last().last() == s[s.len() - 2]);
            let q = w.drop_last().push(w.last().push(c));
            assert forall|k: int| 0 <= k < q.len() implies #[trigger] q[k].len() > 0 by {
                if k < q.len() - 1 {
                    assert(q[k] == w[k]);
                }
            }
        } else {
            let q = w.push(seq![c]);
            assert forall|k: int| 0 <= k < q.len() implies #[trigger] q[k].len() > 0 by {
                if k < w.len() {
                    assert(q[k] == w[k]);
                }
            }
        }
    }
}

/// Joining a nonempty list whose last piece is nonempty gives a nonempty text.
proof fn lemma_join_nonempty(parts: Seq<Seq<char>>, sep: Seq<char>)
    requires
        parts.len() > 0,
        parts.last().len() > 0,
    ensures
        join(parts, sep).len() > 0,
{
    if parts.len() > 1 {
        assert(join(parts, sep) == join(parts.drop_last(), sep) + sep + parts.last());
    }
}

/// Extending the last piece by `c` extends the joined text by `c`.
proof fn lemma_join_extend_last(parts: Seq<Seq<char>>, sep: Seq<char>, c: char)
    requires
        parts.len() > 0,
    ensures
        join(parts.drop_last().push(parts.last().push(c)), sep) == join(parts, sep).push(c),
{
    let q = parts.drop_last().push(parts.last().push(c));
    assert(q.drop_last() == parts.drop_last());
    if parts.len() > 1 {
        assert(join(q, sep) == join(parts.drop_last(), sep) + sep + parts.last().push(c));
        assert(join(parts, sep) == join(parts.drop_last(), sep) + sep + parts.last());
        assert(join(parts.drop_last(), sep) + sep + parts.last().push(c) == (join(
            parts.drop_last(),
            sep,
        ) + sep + parts.last()).push(c));
    }
}

/// Adding a piece adds the separator (when there was a piece before) and the piece.
pub proof fn lemma_join_push(parts: Seq<Seq<char>>, sep: Seq<char>, x: Seq<char>)
    ensures
        join(parts.push(x), sep) == if parts.len() == 0 {
            x
        } else {
            join(parts, sep) + sep + x
        },
{
    assert(parts.push(x).drop_last() == parts);
}

/// No word holds a whitespace character.
proof fn lemma_words_no_ws(s: Seq<char>)
    ensures
        forall|k: int, i: int|
            0 <= k < words(s).len() && 0 <= i < words(s)[k].len() ==> !is_ws(
                #[trigger] words(s)[k][i],
            ),
    decreases s.len(),
{
    if s.len() > 0 {
        let w = words(s.drop_last());
        let c = s.last();
        lemma_words_no_ws(s.drop_last());
        if is_ws(c) {
        } else if s.len() >= 2 && !is_ws(s[s.len() - 2]) {
            assert(s.drop_last().last() == s[s.len() - 2]);
            lemma_words_nonempty(s.drop_last());
            let q = w.drop_last().push(w.last().push(c));
            assert forall|k: int, i: int| 0 <= k < q.len() && 0 <= i < q[k].len() implies !is_ws(
                #[trigger] q[k][i],
            ) by {
                if k < q.len() - 1 {
                    assert(q[k] == w[k]);
                } else if i < w.last().len() {
                    assert(q[k][i] == w[w.len() - 1][i]);
                }
            }
        } else {
            let q = w.push(seq![c]);
            assert forall|k: int, i: int| 0 <= k < q.len() && 0 <= i < q[k].len() implies !is_ws(
                #[trigger] q[k][i],
            ) by {
                if k < w.len() {
                    assert(q[k] == w[k]);
                }
            }
        }
    }
}

/// A character that occurs in no piece and not in the separator does not
/// occur in the joined text.
proof fn lemma_join_avoids(parts: Seq<Seq<char>>, sep: Seq<char>, c: char)
    requires
        forall|k: int, i: int|
            0 <= k < parts.len() && 0 <= i < parts[k].len() ==> #[trigger] parts[k][i] != c,
        !sep.contains(c),
    ensures
        !join(parts, sep).contains(c),
    decreases parts.len(),
{
    if parts.len() == 1 {
        assert forall|i: int| 0 <= i < parts[0].len() implies parts[0][i] != c by {
            assert(parts[0][i] == parts[0][i]);
        }
    } else if parts.len() > 1 {
        let d = parts.drop_last();
        assert forall|k: int, i: int| 0 <= k < d.len() && 0 <= i < d[k].len() implies #[trigger] d[k][i]
            != c by {
            assert(d[k] == parts[k]);
        }
        lemma_join_avoids(d, sep, c);
        let l = parts.last();
        assert forall|i: int| 0 <= i < l.len() implies l[i] != c by {
            assert(l[i] == parts[parts.len() - 1][i]);
        }
        let j = join(d, sep) + sep + l;
        assert forall|i: int| 0 <= i < j.len() implies j[i] != c by {
            if i < join(d, sep).len() {
                assert(j[i] == join(d, sep)[i]);
            } else if i < join(d, sep).len() + sep.len() {
                assert(j[i] == sep[i - join(d, sep).len()]);
            } else {
                assert(j[i] == l[i - join(d, sep).len() - sep.len()]);
            }
        }
    }
}

/// Collapsing whitespace leaves no line feed: the text is one line.
pub proof fn lemma_collapsed_is_one_line(s: Seq<char>)
    ensures
        !collapse_whitespace(s).contains('\n'),
{
    lemma_words_no_ws(s);
    let w = words(s);
    assert forall|k: int, i: int| 0 <= k < w.len() && 0 <= i < w[k].len() implies #[trigger] w[k][i]
        != '\n' by {
        assert(!is_ws(w[k][i]));
    }
    assert(!seq![' '].contains('\n')) by {
        assert(seq![' '][0] == ' ');
    }
    lemma_join_avoids(w, seq![' '], '\n');
}

/// `s` with runs of whitespace collapsed to one space and trimmed at both ends.
pub fn collapse_ws(s: &str) -> (r: String)
    ensures
        r@ == collapse_whitespace(s@),
{
    let cs = chars_of(s);
    let mut out = String::new();
    let mut i: usize = 0;
    let ghost sp = seq![' '];
    while i < cs.len()
        invariant
            i <= cs.len(),
            cs@ == s@,
            sp == seq![' '],
            out@ == join(words(cs@.take(i as int)), sp),
        decreases cs.len() - i,
    {
        let c = cs[i];
        let ghost pre = cs@.take(i as int);
        let ghost cur = cs@.take(i + 1);
        proof {
            assert(cur.drop_last() == pre);
            assert(cur.last() == c);
            lemma_words_nonempty(pre);
        }
        if !is_whitespace(c) {
            if i > 0 && !is_whitespace(cs[i - 1]) {
                proof {
                    assert(pre.last() == cs@[i - 1]);
                    assert(cur[cur.len() - 2] == cs@[i - 1]);
                    lemma_join_extend_last(words(pre), sp, c);
                }
                out.push(c);
            } else {
                proof {
                    if i > 0 {
                        assert(cur[cur.len() - 2] == cs@[i - 1]);
                    }
                    lemma_join_push(words(pre), sp, seq![c]);
                    if words(pre).len() > 0 {
                        assert(words(pre)[words(pre).len() - 1].len() > 0);
                        lemma_join_nonempty(words(pre), sp);
                    }
                }
                if !out.as_str().is_empty() {
                    out.push(' ');
                }
                out.push(c);
                proof {
                    if words(pre).len() > 0 {
                        assert(join(words(pre), sp) + sp + seq![c] == join(words(pre), sp).push(
                            ' ',
                        ).push(c));
                    } else {
                        assert(seq![c] == Seq::<char>::empty().push(c));
                    }
                }
            }
        }
        i = i + 1;
    }
    proof {
        assert(cs@.take(cs@.len() as int) == cs@);
    }
    out
}

// ---------------------------------------------------------------------------
// Splitting at the first ": "
// ---------------------------------------------------------------------------

/// The index of the first `": "` in `s` at or after `i`.
pub open spec fn colon_space_from(s: Seq<char>, i: int) -> Option<int>
    decreases s.len() - i,
{
    if i < 0 || i + 1 >= s.len() {
        None
    } else if s[i] == ':' && s[i + 1] == ' ' {
        Some(i)
    } else {
        colon_space_from(s, i + 1)
    }
}

/// `s` split around its first `": "` (`str::split_once(": ")`).
pub open spec fn split_colon_space(s: Seq<char>) -> Option<(Seq<char>, Seq<char>)> {
    match colon_space_from(s, 0) {
        Some(i) => Some((s.take(i), s.skip(i + 2))),
        None => None,
    }
}

/// Splits `s` around its first `": "`.
pub fn split_once_colon_space(s: &str) -> (r: Option<(String, String)>)
    ensures
        match r {
            Some((a, b)) => split_colon_space(s@) == Some((a@, b@)),
            None => split_colon_space(s@) is None,
        },
{
    let cs = chars_of(s);
    let mut i: usize = 0;
    while i < cs.len()
        invariant
            cs@ == s@,
            i <= cs.len(),
            colon_space_from(cs@, 0) == colon_space_from(cs@, i as int),
        decreases cs.len() - i,
    {
        if i + 1 < cs.len() && cs[i] == ':' && cs[i + 1] == ' ' {
            let mut a = String::new();
            push_range(&mut a, &cs, 0, i);
            let mut b = String::new();
            push_range(&mut b, &cs, i + 2, cs.len());
            proof {
                assert(cs@.subrange(0, i as int) == cs@.take(i as int));
                assert(cs@.subrange(i + 2, cs@.len() as int) == cs@.skip(i + 2));
            }
            return Some((a, b));
        }
        i = i + 1;
    }
    None
}

// ---------------------------------------------------------------------------
// UTF-8 widths
// ---------------------------------------------------------------------------

/// The number of bytes UTF-8 takes for `c`.
pub open spec fn utf8_width(c: char) -> nat {
    let u = c as u32;
    if u < 0x80 {
        1
    } else if u < 0x800 {
        2
    } else if u < 0x10000 {
        3
    } else {
        4
    }
}

/// The number of bytes UTF-8 takes for `s` (`str::len`).
pub open spec fn utf8_len(s: Seq<char>) -> nat
    decreases s.len(),
{
    if s.len() == 0 {
        0
    } else {
        utf8_len(s.drop_last()) + utf8_width(s.last())
    }
}

/// The UTF-8 width of one character.
pub fn char_utf8_width(c: char) -> (n: usize)
    ensures
        n as nat == utf8_width(c),
{
    let u = c as u32;
    if u < 0x80 {
        1
    } else if u < 0x800 {
        2
    } else if u < 0x10000 {
        3
    } else {
        4
    }
}

} // verus!
