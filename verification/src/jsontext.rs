//! The textual JSON layer: printing and parsing of the JSON fragments the
//! coordinator exchanges — strings with escapes, unsigned integers, and
//! arrays of strings — together with round-trip lemmas.

use vstd::prelude::*;
use vstd::string::StrSliceExecFns;

verus! {

// ---------------------------------------------------------------------------
// Character classes
// ---------------------------------------------------------------------------

pub open spec fn is_ws(c: char) -> bool {
    c == ' ' || c == '\n' || c == '\t' || c == '\r'
}

pub open spec fn is_digit(c: char) -> bool {
    48 <= (c as u32) <= 57
}

pub open spec fn digit_val(c: char) -> int {
    (c as u32) - 48
}

pub open spec fn digit_char(d: int) -> char {
    if d == 0 {
        '0'
    } else if d == 1 {
        '1'
    } else if d == 2 {
        '2'
    } else if d == 3 {
        '3'
    } else if d == 4 {
        '4'
    } else if d == 5 {
        '5'
    } else if d == 6 {
        '6'
    } else if d == 7 {
        '7'
    } else if d == 8 {
        '8'
    } else {
        '9'
    }
}

// ---------------------------------------------------------------------------
// Printers
// ---------------------------------------------------------------------------

/// JSON escape of one character: quote, backslash, newline, carriage
/// return and tab are escaped; everything else stands for itself.
pub open spec fn esc_char(c: char) -> Seq<char> {
    if c == '"' {
        seq!['\\', '"']
    } else if c == '\\' {
        seq!['\\', '\\']
    } else if c == '\n' {
        seq!['\\', 'n']
    } else if c == '\r' {
        seq!['\\', 'r']
    } else if c == '\t' {
        seq!['\\', 't']
    } else {
        seq![c]
    }
}

/// JSON escape of a whole string body.
pub open spec fn esc(s: Seq<char>) -> Seq<char>
    decreases s.len(),
{
    if s.len() == 0 {
        Seq::empty()
    } else {
        esc_char(s[0]) + esc(s.drop_first())
    }
}

/// A JSON string literal: quote, escaped body, quote.
pub open spec fn str_lit(s: Seq<char>) -> Seq<char> {
    seq!['"'] + esc(s) + seq!['"']
}

/// Decimal digits of a non-negative integer, most significant first.
pub open spec fn dec_str(n: int) -> Seq<char>
    decreases n,
{
    if n < 10 {
        seq![digit_char(n)]
    } else {
        dec_str(n / 10) + seq![digit_char(n % 10)]
    }
}

/// The items of a JSON array of string literals, comma separated.
pub open spec fn ids_items(ids: Seq<Seq<char>>) -> Seq<char>
    decreases ids.len(),
{
    if ids.len() == 0 {
        Seq::empty()
    } else if ids.len() == 1 {
        str_lit(ids[0])
    } else {
        str_lit(ids[0]) + seq![','] + ids_items(ids.drop_first())
    }
}

/// A JSON array of string literals.
pub open spec fn ids_lit(ids: Seq<Seq<char>>) -> Seq<char> {
    seq!['['] + ids_items(ids) + seq![']']
}

pub proof fn lemma_esc_snoc(s: Seq<char>, c: char)
    ensures
        esc(s.push(c)) == esc(s) + esc_char(c),
    decreases s.len(),
{
    if s.len() == 0 {
        assert(s.push(c) =~= seq![c]);
        assert(seq![c][0] == c);
        assert(seq![c].drop_first() =~= Seq::<char>::empty());
        assert(esc(seq![c]) == esc_char(c) + esc(Seq::<char>::empty()));
        assert(esc(Seq::<char>::empty()) == Seq::<char>::empty());
        assert(esc(s) == Seq::<char>::empty());
        assert(esc_char(c) + Seq::<char>::empty() =~= Seq::<char>::empty() + esc_char(c));
    } else {
        assert(s.push(c).drop_first() =~= s.drop_first().push(c));
        lemma_esc_snoc(s.drop_first(), c);
        assert(s.push(c)[0] == s[0]);
        assert(esc_char(s[0]) + (esc(s.drop_first()) + esc_char(c)) =~= (esc_char(s[0]) + esc(
            s.drop_first(),
        )) + esc_char(c));
    }
}

pub proof fn lemma_ids_items_snoc(ids: Seq<Seq<char>>, id: Seq<char>)
    ensures
        ids.len() == 0 ==> ids_items(ids.push(id)) == str_lit(id),
        ids.len() > 0 ==> ids_items(ids.push(id)) == ids_items(ids) + seq![','] + str_lit(id),
    decreases ids.len(),
{
    if ids.len() == 0 {
        assert(ids.push(id) =~= seq![id]);
        assert(ids_items(seq![id]) == str_lit(id));
    } else if ids.len() == 1 {
        assert(ids.push(id).drop_first() =~= seq![id]);
        assert(ids.push(id)[0] == ids[0]);
        assert(str_lit(ids[0]) + seq![','] + ids_items(seq![id]) =~= ids_items(ids) + seq![',']
            + str_lit(id));
    } else {
        assert(ids.push(id).drop_first() =~= ids.drop_first().push(id));
        lemma_ids_items_snoc(ids.drop_first(), id);
        assert(ids.push(id)[0] == ids[0]);
        assert(str_lit(ids[0]) + seq![','] + (ids_items(ids.drop_first()) + seq![','] + str_lit(
            id,
        )) =~= (str_lit(ids[0]) + seq![','] + ids_items(ids.drop_first())) + seq![','] + str_lit(
            id,
        ));
    }
}

/// Appends the JSON escape of `c`.
pub fn push_esc_char(out: &mut Vec<char>, c: char)
    ensures
        final(out)@ == old(out)@ + esc_char(c),
{
    if c == '"' {
        out.push('\\');
        out.push('"');
    } else if c == '\\' {
        out.push('\\');
        out.push('\\');
    } else if c == '\n' {
        out.push('\\');
        out.push('n');
    } else if c == '\r' {
        out.push('\\');
        out.push('r');
    } else if c == '\t' {
        out.push('\\');
        out.push('t');
    } else {
        out.push(c);
    }
    proof {
        assert(out@ =~= old(out)@ + esc_char(c));
    }
}

/// Appends the JSON string literal for `s`.
pub fn push_json_string(out: &mut Vec<char>, s: &str)
    ensures
        final(out)@ == old(out)@ + str_lit(s@),
{
    out.push('"');
    let ghost base = out@;
    let n = s.unicode_len();
    let mut i: usize = 0;
    while i < n
        invariant
            n == s@.len(),
            i <= n,
            out@ == base + esc(s@.subrange(0, i as int)),
        decreases n - i,
    {
        let c = s.get_char(i);
        push_esc_char(out, c);
        proof {
            assert(s@.subrange(0, i + 1) =~= s@.subrange(0, i as int).push(s@[i as int]));
            lemma_esc_snoc(s@.subrange(0, i as int), s@[i as int]);
            assert((base + esc(s@.subrange(0, i as int))) + esc_char(s@[i as int]) =~= base + esc(
                s@.subrange(0, i + 1),
            ));
        }
        i += 1;
    }
    out.push('"');
    proof {
        assert(s@.subrange(0, n as int) =~= s@);
        assert(out@ =~= old(out)@ + str_lit(s@));
    }
}

fn digit_char_exec(d: u64) -> (r: char)
    requires
        d < 10,
    ensures
        r == digit_char(d as int),
{
    if d == 0 {
        '0'
    } else if d == 1 {
        '1'
    } else if d == 2 {
        '2'
    } else if d == 3 {
        '3'
    } else if d == 4 {
        '4'
    } else if d == 5 {
        '5'
    } else if d == 6 {
        '6'
    } else if d == 7 {
        '7'
    } else if d == 8 {
        '8'
    } else {
        '9'
    }
}

/// Appends the decimal digits of `n`.
pub fn push_dec(out: &mut Vec<char>, n: u64)
    ensures
        final(out)@ == old(out)@ + dec_str(n as int),
    decreases n,
{
    if n < 10 {
        out.push(digit_char_exec(n));
        proof {
            assert(out@ =~= old(out)@ + dec_str(n as int));
        }
    } else {
        push_dec(out, n / 10);
        out.push(digit_char_exec(n % 10));
        proof {
            assert((old(out)@ + dec_str(n as int / 10)) + seq![digit_char(n as int % 10)] =~= old(
                out,
            )@ + dec_str(n as int));
        }
    }
}

/// Appends the JSON array literal of the given strings.
pub fn push_ids(out: &mut Vec<char>, ids: &Vec<String>)
    ensures
        final(out)@ == old(out)@ + ids_lit(ids.deep_view()),
{
    out.push('[');
    let ghost base = out@;
    let mut i: usize = 0;
    while i < ids.len()
        invariant
            i <= ids@.len(),
            out@ == base + ids_items(ids.deep_view().subrange(0, i as int)),
        decreases ids@.len() - i,
    {
        if i > 0 {
            out.push(',');
        }
        push_json_string(out, ids[i].as_str());
        proof {
            let dv = ids.deep_view();
            assert(dv[i as int] == ids@[i as int]@);
            assert(dv.subrange(0, i + 1) =~= dv.subrange(0, i as int).push(dv[i as int]));
            lemma_ids_items_snoc(dv.subrange(0, i as int), dv[i as int]);
            if i == 0 {
                assert((base + ids_items(dv.subrange(0, 0))) + str_lit(dv[0]) =~= base + ids_items(
                    dv.subrange(0, 1),
                ));
            } else {
                assert(((base + ids_items(dv.subrange(0, i as int))) + seq![',']) + str_lit(
                    dv[i as int],
                ) =~= base + ids_items(dv.subrange(0, i + 1)));
            }
        }
        i += 1;
    }
    out.push(']');
    proof {
        assert(ids.deep_view().subrange(0, ids.deep_view().len() as int) =~= ids.deep_view());
        assert(out@ =~= old(out)@ + ids_lit(ids.deep_view()));
    }
}

/// A JSON string literal, or `null` for an absent value.
pub open spec fn opt_lit(o: Option<Seq<char>>) -> Seq<char> {
    match o {
        None => "null"@,
        Some(s) => str_lit(s),
    }
}

/// Appends the JSON form of an optional string: its literal, or `null`.
pub fn push_opt_string(out: &mut Vec<char>, s: &Option<String>)
    ensures
        final(out)@ == old(out)@ + opt_lit(crate::strutil::opt_view(*s)),
{
    match s {
        None => {
            let mut word = crate::strutil::chars_of("null");
            out.append(&mut word);
        },
        Some(t) => {
            push_json_string(out, t.as_str());
        },
    }
}

// ---------------------------------------------------------------------------
// Parsers (specifications consume from the front of the sequence)
// ---------------------------------------------------------------------------

/// Leading whitespace removed.
pub open spec fn sp_ws(s: Seq<char>) -> Seq<char>
    decreases s.len(),
{
    if s.len() > 0 && is_ws(s[0]) {
        sp_ws(s.drop_first())
    } else {
        s
    }
}

/// Decoding of one escape character (the character after a backslash).
pub open spec fn unesc_char(c: char) -> Option<char> {
    if c == '"' {
        Some('"')
    } else if c == '\\' {
        Some('\\')
    } else if c == '/' {
        Some('/')
    } else if c == 'n' {
        Some('\n')
    } else if c == 'r' {
        Some('\r')
    } else if c == 't' {
        Some('\t')
    } else if c == 'b' {
        Some('\u{0008}')
    } else if c == 'f' {
        Some('\u{000C}')
    } else {
        None
    }
}

/// Parse of a string body after the opening quote, up to and including the
/// closing quote. Returns the unescaped content and the leftover input.
pub open spec fn sp_str_body(s: Seq<char>) -> Option<(Seq<char>, Seq<char>)>
    decreases s.len(),
{
    if s.len() == 0 {
        None
    } else if s[0] == '"' {
        Some((Seq::empty(), s.drop_first()))
    } else if s[0] == '\\' {
        if s.len() < 2 {
            None
        } else {
            match unesc_char(s[1]) {
                None => None,
                Some(c) => match sp_str_body(s.skip(2)) {
                    None => None,
                    Some(p) => Some((seq![c] + p.0, p.1)),
                },
            }
        }
    } else {
        match sp_str_body(s.drop_first()) {
            None => None,
            Some(p) => Some((seq![s[0]] + p.0, p.1)),
        }
    }
}

pub proof fn lemma_str_body_shrinks(s: Seq<char>)
    ensures
        sp_str_body(s) matches Some(p) ==> p.1.len() < s.len(),
    decreases s.len(),
{
    if s.len() == 0 {
    } else if s[0] == '"' {
    } else if s[0] == '\\' {
        if s.len() >= 2 {
            lemma_str_body_shrinks(s.skip(2));
        }
    } else {
        lemma_str_body_shrinks(s.drop_first());
    }
}

pub proof fn lemma_ws_shrinks(s: Seq<char>)
    ensures
        sp_ws(s).len() <= s.len(),
        s.len() > 0 && is_ws(s[0]) ==> sp_ws(s).len() < s.len(),
    decreases s.len(),
{
    if s.len() > 0 && is_ws(s[0]) {
        lemma_ws_shrinks(s.drop_first());
    }
}

/// Accumulating parse of a digit run; fails on u64 overflow.
pub open spec fn sp_num_rec(s: Seq<char>, acc: u64) -> Option<(u64, Seq<char>)>
    decreases s.len(),
{
    if s.len() > 0 && is_digit(s[0]) {
        let a2 = acc * 10 + digit_val(s[0]);
        if a2 > u64::MAX {
            None
        } else {
            sp_num_rec(s.drop_first(), a2 as u64)
        }
    } else {
        Some((acc, s))
    }
}

/// Parse of an unsigned decimal integer: at least one digit, greedy.
pub open spec fn sp_num(s: Seq<char>) -> Option<(u64, Seq<char>)> {
    if s.len() > 0 && is_digit(s[0]) {
        sp_num_rec(s, 0)
    } else {
        None
    }
}

pub proof fn lemma_num_rec_shrinks(s: Seq<char>, acc: u64)
    ensures
        sp_num_rec(s, acc) matches Some(p) ==> p.1.len() <= s.len(),
    decreases s.len(),
{
    if s.len() > 0 && is_digit(s[0]) {
        let a2 = acc * 10 + digit_val(s[0]);
        if a2 <= u64::MAX {
            lemma_num_rec_shrinks(s.drop_first(), a2 as u64);
        }
    }
}

// ---------------------------------------------------------------------------
// Executable parsers over a character vector with a start index
// ---------------------------------------------------------------------------

/// First index at or after `i` holding a non-whitespace character.
pub fn skip_ws(v: &Vec<char>, i: usize) -> (j: usize)
    requires
        i <= v@.len(),
    ensures
        i <= j <= v@.len(),
        sp_ws(v@.skip(i as int)) == v@.skip(j as int),
{
    let n = v.len();
    let mut j = i;
    while j < n && (v[j] == ' ' || v[j] == '\n' || v[j] == '\t' || v[j] == '\r')
        invariant
            n == v@.len(),
            i <= j <= n,
            sp_ws(v@.skip(i as int)) == sp_ws(v@.skip(j as int)),
        decreases n - j,
    {
        proof {
            assert(v@.skip(j as int).drop_first() =~= v@.skip(j + 1));
        }
        j += 1;
    }
    proof {
        if j < n {
            assert(!is_ws(v@.skip(j as int)[0]));
        }
    }
    j
}

fn unescape_char(c: char) -> (r: Option<char>)
    ensures
        r == unesc_char(c),
{
    if c == '"' {
        Some('"')
    } else if c == '\\' {
        Some('\\')
    } else if c == '/' {
        Some('/')
    } else if c == 'n' {
        Some('\n')
    } else if c == 'r' {
        Some('\r')
    } else if c == 't' {
        Some('\t')
    } else if c == 'b' {
        Some('\u{0008}')
    } else if c == 'f' {
        Some('\u{000C}')
    } else {
        None
    }
}

/// Parse of a string body starting at `i` (just after the opening quote).
/// On success returns the unescaped content and the index just after the
/// closing quote.
pub fn parse_str_body(v: &Vec<char>, i: usize) -> (r: Option<(Vec<char>, usize)>)
    requires
        i <= v@.len(),
    ensures
        match r {
            None => sp_str_body(v@.skip(i as int)) is None,
            Some(p) => i < p.1 <= v@.len() && sp_str_body(v@.skip(i as int)) == Some(
                (p.0@, v@.skip(p.1 as int)),
            ),
        },
{
    let n = v.len();
    let mut out: Vec<char> = Vec::new();
    let mut j = i;
    while j < n
        invariant
            n == v@.len(),
            i <= j <= n,
            (match sp_str_body(v@.skip(j as int)) {
                Some(p) => sp_str_body(v@.skip(i as int)) == Some((out@ + p.0, p.1)),
                None => sp_str_body(v@.skip(i as int)) is None,
            }),
        decreases n - j,
    {
        let c = v[j];
        if c == '"' {
            proof {
                assert(v@.skip(j as int).drop_first() =~= v@.skip(j + 1));
                assert(out@ + Seq::<char>::empty() =~= out@);
            }
            return Some((out, j + 1));
        } else if c == '\\' {
            if j + 1 == n {
                proof {
                    assert(v@.skip(j as int).len() < 2);
                }
                return None;
            }
            let e = unescape_char(v[j + 1]);
            match e {
                None => {
                    return None;
                },
                Some(u) => {
                    proof {
                        assert(v@.skip(j as int).skip(2) =~= v@.skip(j + 2));
                        let rec = sp_str_body(v@.skip(j + 2));
                        match rec {
                            Some(p) => {
                                assert(out@ + (seq![u] + p.0) =~= (out@ + seq![u]) + p.0);
                            },
                            None => {},
                        }
                    }
                    out.push(u);
                    j += 2;
                },
            }
        } else {
            proof {
                assert(v@.skip(j as int).drop_first() =~= v@.skip(j + 1));
                let rec = sp_str_body(v@.skip(j + 1));
                match rec {
                    Some(p) => {
                        assert(out@ + (seq![c] + p.0) =~= (out@ + seq![c]) + p.0);
                    },
                    None => {},
                }
            }
            out.push(c);
            j += 1;
        }
    }
    proof {
        assert(v@.skip(j as int).len() == 0);
    }
    None
}

/// Parse of an unsigned decimal integer starting at `i`.
pub fn parse_u64(v: &Vec<char>, i: usize) -> (r: Option<(u64, usize)>)
    requires
        i <= v@.len(),
    ensures
        match r {
            None => sp_num(v@.skip(i as int)) is None,
            Some(p) => i < p.1 <= v@.len() && sp_num(v@.skip(i as int)) == Some(
                (p.0, v@.skip(p.1 as int)),
            ),
        },
{
    let n = v.len();
    if i == n {
        return None;
    }
    let c0 = v[i];
    if !((c0 as u32) >= 48 && (c0 as u32) <= 57) {
        return None;
    }
    let mut acc: u64 = 0;
    let mut j = i;
    while j < n && (v[j] as u32) >= 48 && (v[j] as u32) <= 57
        invariant
            n == v@.len(),
            i <= j <= n,
            sp_num_rec(v@.skip(i as int), 0) == sp_num_rec(v@.skip(j as int), acc),
        decreases n - j,
    {
        let c = v[j];
        let d: u64 = (c as u32) as u64 - 48;
        proof {
            assert(is_digit(v@.skip(j as int)[0]));
        }
        if acc > (u64::MAX - d) / 10 {
            proof {
                assert(acc * 10 + digit_val(v@.skip(j as int)[0]) > u64::MAX) by (nonlinear_arith)
                    requires
                        acc > (u64::MAX - d) / 10,
                        d == digit_val(v@.skip(j as int)[0]),
                        d < 10,
                {}
            }
            return None;
        }
        proof {
            assert(acc * 10 + digit_val(v@.skip(j as int)[0]) <= u64::MAX) by (nonlinear_arith)
                requires
                    acc <= (u64::MAX - d) / 10,
                    d == digit_val(v@.skip(j as int)[0]),
                    d < 10,
            {}
            assert(v@.skip(j as int).drop_first() =~= v@.skip(j + 1));
        }
        acc = acc * 10 + d;
        j += 1;
    }
    proof {
        if j < n {
            assert(!is_digit(v@.skip(j as int)[0]));
        }
        assert(sp_num_rec(v@.skip(j as int), acc) == Some((acc, v@.skip(j as int))));
        assert(is_digit(v@.skip(i as int)[0]));
    }
    Some((acc, j))
}

// ---------------------------------------------------------------------------
// Round-trip lemmas: parsing what the printers emit
// ---------------------------------------------------------------------------

/// A character that escapes to itself.
pub open spec fn plain_char(c: char) -> bool {
    c != '"' && c != '\\' && c != '\n' && c != '\r' && c != '\t'
}

/// A string whose escape is itself.
pub open spec fn plain_seq(s: Seq<char>) -> bool {
    forall|k: int| 0 <= k < s.len() ==> plain_char(#[trigger] s[k])
}

pub proof fn lemma_esc_plain(s: Seq<char>)
    requires
        plain_seq(s),
    ensures
        esc(s) == s,
    decreases s.len(),
{
    if s.len() == 0 {
        assert(esc(s) =~= s);
    } else {
        assert(plain_char(s[0]));
        assert(esc_char(s[0]) == seq![s[0]]);
        assert(plain_seq(s.drop_first())) by {
            assert(forall|k: int|
                0 <= k < s.drop_first().len() ==> #[trigger] s.drop_first()[k] == s[k + 1]);
        }
        lemma_esc_plain(s.drop_first());
        assert(seq![s[0]] + s.drop_first() =~= s);
    }
}

/// Skipping whitespace does nothing when the input does not begin with
/// whitespace.
pub proof fn lemma_ws_id(s: Seq<char>)
    requires
        s.len() == 0 || !is_ws(s[0]),
    ensures
        sp_ws(s) == s,
{
}

/// The string parser inverts the string printer: the escaped body followed
/// by a closing quote and any continuation parses back to the original
/// content, leaving exactly the continuation.
pub proof fn lemma_str_body_round_trip(id: Seq<char>, rest: Seq<char>)
    ensures
        sp_str_body(esc(id) + seq!['"'] + rest) == Some((id, rest)),
    decreases id.len(),
{
    let s = esc(id) + seq!['"'] + rest;
    if id.len() == 0 {
        assert(s =~= seq!['"'] + rest);
        assert(s[0] == '"');
        assert(s.drop_first() =~= rest);
        assert(Seq::<char>::empty() =~= id);
    } else {
        let c = id[0];
        let tail = id.drop_first();
        assert(esc(id) == esc_char(c) + esc(tail));
        lemma_str_body_round_trip(tail, rest);
        if c == '"' || c == '\\' || c == '\n' || c == '\r' || c == '\t' {
            let e: char = if c == '"' {
                '"'
            } else if c == '\\' {
                '\\'
            } else if c == '\n' {
                'n'
            } else if c == '\r' {
                'r'
            } else {
                't'
            };
            assert(esc_char(c) =~= seq!['\\', e]);
            assert(s =~= seq!['\\', e] + (esc(tail) + seq!['"'] + rest));
            assert(s[0] == '\\');
            assert(s[1] == e);
            assert(s.len() >= 2);
            assert(unesc_char(e) == Some(c));
            assert(s.skip(2) =~= esc(tail) + seq!['"'] + rest);
            assert(seq![c] + tail =~= id);
        } else {
            assert(esc_char(c) =~= seq![c]);
            assert(s =~= seq![c] + (esc(tail) + seq!['"'] + rest));
            assert(s[0] == c);
            assert(s.drop_first() =~= esc(tail) + seq!['"'] + rest);
            assert(seq![c] + tail =~= id);
        }
    }
}

/// Horner evaluation of a digit run on top of an accumulator.
pub open spec fn horner(s: Seq<char>, acc: int) -> int
    decreases s.len(),
{
    if s.len() == 0 {
        acc
    } else {
        horner(s.drop_first(), acc * 10 + digit_val(s[0]))
    }
}

pub open spec fn all_digits(s: Seq<char>) -> bool {
    forall|k: int| 0 <= k < s.len() ==> is_digit(#[trigger] s[k])
}

pub proof fn lemma_horner_mono(s: Seq<char>, acc: int)
    requires
        acc >= 0,
        all_digits(s),
    ensures
        horner(s, acc) >= acc,
    decreases s.len(),
{
    if s.len() > 0 {
        assert(is_digit(s[0]));
        assert(acc * 10 + digit_val(s[0]) >= acc);
        assert(all_digits(s.drop_first())) by {
            assert(forall|k: int|
                0 <= k < s.drop_first().len() ==> #[trigger] s.drop_first()[k] == s[k + 1]);
        }
        lemma_horner_mono(s.drop_first(), acc * 10 + digit_val(s[0]));
    }
}

pub proof fn lemma_num_chain(s: Seq<char>, t: Seq<char>, acc: u64)
    requires
        all_digits(s),
        horner(s, acc as int) <= u64::MAX,
    ensures
        sp_num_rec(s + t, acc) == sp_num_rec(t, horner(s, acc as int) as u64),
    decreases s.len(),
{
    if s.len() == 0 {
        assert(s + t =~= t);
    } else {
        assert(is_digit(s[0]));
        assert((s + t)[0] == s[0]);
        let a2 = acc * 10 + digit_val(s[0]);
        assert(all_digits(s.drop_first())) by {
            assert(forall|k: int|
                0 <= k < s.drop_first().len() ==> #[trigger] s.drop_first()[k] == s[k + 1]);
        }
        assert(horner(s, acc as int) == horner(s.drop_first(), a2));
        lemma_horner_mono(s.drop_first(), a2);
        assert(a2 <= u64::MAX);
        assert((s + t).drop_first() =~= s.drop_first() + t);
        lemma_num_chain(s.drop_first(), t, a2 as u64);
    }
}

pub proof fn lemma_dec_str_digits(n: int)
    requires
        n >= 0,
    ensures
        all_digits(dec_str(n)),
        dec_str(n).len() >= 1,
    decreases n,
{
    if n < 10 {
        assert(is_digit(digit_char(n)));
        assert(forall|k: int| 0 <= k < dec_str(n).len() ==> is_digit(#[trigger] dec_str(n)[k]));
    } else {
        lemma_dec_str_digits(n / 10);
        assert(is_digit(digit_char(n % 10)));
        assert(forall|k: int| 0 <= k < dec_str(n).len() ==> is_digit(#[trigger] dec_str(n)[k]));
    }
}

pub proof fn lemma_horner_snoc(s: Seq<char>, c: char, acc: int)
    ensures
        horner(s.push(c), acc) == horner(s, acc) * 10 + digit_val(c),
    decreases s.len(),
{
    if s.len() == 0 {
        assert(s.push(c) =~= seq![c]);
        assert(seq![c][0] == c);
        assert(seq![c].drop_first() =~= Seq::<char>::empty());
        assert(horner(seq![c], acc) == horner(Seq::<char>::empty(), acc * 10 + digit_val(c)));
        assert(horner(Seq::<char>::empty(), acc * 10 + digit_val(c)) == acc * 10 + digit_val(c));
        assert(horner(s, acc) == acc);
    } else {
        assert(s.push(c).drop_first() =~= s.drop_first().push(c));
        assert(s.push(c)[0] == s[0]);
        assert(horner(s.push(c), acc) == horner(
            s.drop_first().push(c),
            acc * 10 + digit_val(s[0]),
        ));
        lemma_horner_snoc(s.drop_first(), c, acc * 10 + digit_val(s[0]));
        assert(horner(s, acc) == horner(s.drop_first(), acc * 10 + digit_val(s[0])));
    }
}

pub proof fn lemma_dec_str_horner(n: int)
    requires
        n >= 0,
    ensures
        horner(dec_str(n), 0) == n,
    decreases n,
{
    if n < 10 {
        assert(dec_str(n) =~= seq![digit_char(n)]);
        assert(seq![digit_char(n)][0] == digit_char(n));
        assert(seq![digit_char(n)].drop_first() =~= Seq::<char>::empty());
        assert(digit_val(digit_char(n)) == n);
        assert(horner(seq![digit_char(n)], 0) == horner(
            Seq::<char>::empty(),
            0 * 10 + digit_val(digit_char(n)),
        ));
    } else {
        lemma_dec_str_horner(n / 10);
        assert(dec_str(n) =~= dec_str(n / 10).push(digit_char(n % 10)));
        lemma_horner_snoc(dec_str(n / 10), digit_char(n % 10), 0);
        assert(digit_val(digit_char(n % 10)) == n % 10);
    }
}

/// The number parser inverts the decimal printer: the digits of `n`
/// followed by a continuation that does not begin with a digit parse back
/// to `n`.
pub proof fn lemma_num_round_trip(n: u64, rest: Seq<char>)
    requires
        rest.len() == 0 || !is_digit(rest[0]),
    ensures
        sp_num(dec_str(n as int) + rest) == Some((n, rest)),
{
    let d = dec_str(n as int);
    lemma_dec_str_digits(n as int);
    lemma_dec_str_horner(n as int);
    assert((d + rest)[0] == d[0]);
    assert(is_digit(d[0]));
    lemma_num_chain(d, rest, 0);
    assert(sp_num_rec(rest, n) == Some((n, rest)));
}

} // verus!
