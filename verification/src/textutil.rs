//! Text building blocks for the manifest emitter: decimal rendering of
//! integers, JSON string escaping, and lexicographic ordering of names.

use vstd::prelude::*;

verus! {

use vstd::string::{StrSliceExecFns, StringExecFns};

/// Relies on `String::push`: appends exactly one character.
#[verifier::external_body]
pub(crate) fn push_char(s: &mut String, c: char)
    ensures
        final(s)@ == old(s)@ + seq![c],
{
    s.push(c);
}

/// The decimal digit character for `d`.
pub open spec fn spec_digit(d: int) -> char {
    if d == 0 {
        '0'
    } else if d == 1 {
        '1'
    } else if d == 2 {
        '2'
    } else if d == 3 {
        '3'
    } else if d == 4 {
        '4'
    } else if d == 5 {
        '5'
    } else if d == 6 {
        '6'
    } else if d == 7 {
        '7'
    } else if d == 8 {
        '8'
    } else {
        '9'
    }
}

/// The decimal rendering of a non-negative integer, no leading zeros.
pub open spec fn spec_dec_u(n: nat) -> Seq<char>
    decreases n,
{
    if n < 10 {
        seq![spec_digit(n as int)]
    } else {
        spec_dec_u(n / 10) + seq![spec_digit((n % 10) as int)]
    }
}

/// The decimal rendering of a signed integer.
pub open spec fn spec_dec_i(v: int) -> Seq<char> {
    if v >= 0 {
        spec_dec_u(v as nat)
    } else {
        seq!['-'] + spec_dec_u((-v) as nat)
    }
}

fn digit_char(d: u32) -> (c: char)
    requires
        d < 10,
    ensures
        c == spec_digit(d as int),
{
    match d {
        0 => '0',
        1 => '1',
        2 => '2',
        3 => '3',
        4 => '4',
        5 => '5',
        6 => '6',
        7 => '7',
        8 => '8',
        _ => '9',
    }
}

/// Appends the decimal rendering of `n`.
pub fn push_dec_u32(out: &mut String, n: u32)
    ensures
        final(out)@ == old(out)@ + spec_dec_u(n as nat),
    decreases n,
{
    if n < 10 {
        let c = digit_char(n);
        push_char(out, c);
    } else {
        push_dec_u32(out, n / 10);
        let c = digit_char(n % 10);
        push_char(out, c);
        proof {
            assert(out@ =~= old(out)@ + spec_dec_u(n as nat));
        }
    }
}

/// Appends the decimal rendering of `v`, with a leading minus when negative.
pub fn push_dec_i32(out: &mut String, v: i32)
    ensures
        final(out)@ == old(out)@ + spec_dec_i(v as int),
{
    if v >= 0 {
        push_dec_u32(out, v as u32);
    } else {
        push_char(out, '-');
        let m: u32 = (-(v as i64)) as u32;
        push_dec_u32(out, m);
        proof {
            assert(out@ =~= old(out)@ + spec_dec_i(v as int));
        }
    }
}

/// The hexadecimal digit character for `d`.
pub open spec fn spec_hex_digit(d: int) -> char {
    if d < 10 {
        spec_digit(d)
    } else if d == 10 {
        'a'
    } else if d == 11 {
        'b'
    } else if d == 12 {
        'c'
    } else if d == 13 {
        'd'
    } else if d == 14 {
        'e'
    } else {
        'f'
    }
}

fn hex_digit_char(d: u32) -> (c: char)
    requires
        d < 16,
    ensures
        c == spec_hex_digit(d as int),
{
    if d < 10 {
        digit_char(d)
    } else {
        match d {
            10 => 'a',
            11 => 'b',
            12 => 'c',
            13 => 'd',
            14 => 'e',
            _ => 'f',
        }
    }
}

/// The JSON escape of one character: quotes and backslashes get a backslash,
/// control characters a `\u00..` escape, everything else stands alone.
pub open spec fn spec_esc_char(c: char) -> Seq<char> {
    if c == '"' {
        seq!['\\', '"']
    } else if c == '\\' {
        seq!['\\', '\\']
    } else if (c as u32) < 32 {
        seq![
            '\\',
            'u',
            '0',
            '0',
            spec_hex_digit((c as int) / 16),
            spec_hex_digit((c as int) % 16),
        ]
    } else {
        seq![c]
    }
}

/// The JSON escape of the first `i` characters of `s`.
pub open spec fn spec_esc_upto(s: Seq<char>, i: int) -> Seq<char>
    decreases i,
{
    if i <= 0 {
        Seq::empty()
    } else {
        spec_esc_upto(s, i - 1) + spec_esc_char(s[i - 1])
    }
}

/// The JSON escape of a whole string.
pub open spec fn spec_escaped(s: Seq<char>) -> Seq<char> {
    spec_esc_upto(s, s.len() as int)
}

/// Appends the JSON escape of `s`.
#[verifier::loop_isolation(false)]
pub fn push_escaped(out: &mut String, s: &String)
    ensures
        final(out)@ == old(out)@ + spec_escaped(s@),
{
    let n = s.as_str().unicode_len();
    let mut i: usize = 0;
    while i < n
        invariant
            n == s@.len(),
            0 <= i <= n,
            out@ == old(out)@ + spec_esc_upto(s@, i as int),
        decreases n - i,
    {
        let c = s.as_str().get_char(i);
        if c == '"' {
            push_char(out, '\\');
            push_char(out, '"');
        } else if c == '\\' {
            push_char(out, '\\');
            push_char(out, '\\');
        } else if (c as u32) < 32 {
            push_char(out, '\\');
            push_char(out, 'u');
            push_char(out, '0');
            push_char(out, '0');
            let hi = hex_digit_char((c as u32) / 16);
            push_char(out, hi);
            let lo = hex_digit_char((c as u32) % 16);
            push_char(out, lo);
        } else {
            push_char(out, c);
        }
        proof {
            assert(out@ =~= old(out)@ + spec_esc_upto(s@, i + 1));
        }
        i += 1;
    }
}

/// Strict lexicographic order on character sequences, by code point, from
/// position `i` on; the sequences agree before `i`.
pub open spec fn spec_lex_lt_from(a: Seq<char>, b: Seq<char>, i: int) -> bool
    decreases b.len() - i,
{
    if i >= b.len() {
        false
    } else if i >= a.len() {
        true
    } else if (a[i] as u32) < (b[i] as u32) {
        true
    } else if a[i] != b[i] {
        false
    } else {
        spec_lex_lt_from(a, b, i + 1)
    }
}

/// Strict lexicographic order on character sequences, by code point. This is
/// the order of Rust's `str` comparison, and so of a name-keyed ordered
/// map: UTF-8 byte order coincides with code-point order.
pub open spec fn spec_lex_lt(a: Seq<char>, b: Seq<char>) -> bool {
    spec_lex_lt_from(a, b, 0)
}

/// Lexicographic order is transitive.
pub proof fn lemma_lex_lt_from_trans(a: Seq<char>, b: Seq<char>, c: Seq<char>, i: int)
    requires
        spec_lex_lt_from(a, b, i),
        spec_lex_lt_from(b, c, i),
    ensures
        spec_lex_lt_from(a, c, i),
    decreases c.len() - i,
{
    if i < b.len() && i < a.len() && i < c.len() && a[i] == b[i] && b[i] == c[i] {
        lemma_lex_lt_from_trans(a, b, c, i + 1);
    }
}

/// Lexicographic order is transitive.
pub proof fn lemma_lex_lt_trans(a: Seq<char>, b: Seq<char>, c: Seq<char>)
    requires
        spec_lex_lt(a, b),
        spec_lex_lt(b, c),
    ensures
        spec_lex_lt(a, c),
{
    lemma_lex_lt_from_trans(a, b, c, 0);
}

/// Two sequences are ordered one way or the other, or are equal.
pub proof fn lemma_lex_total_from(a: Seq<char>, b: Seq<char>, i: int)
    requires
        0 <= i <= a.len(),
        0 <= i <= b.len(),
    ensures
        spec_lex_lt_from(a, b, i) || spec_lex_lt_from(b, a, i) || (a.len() == b.len()
            && forall|k: int| i <= k < a.len() ==> a[k] == b[k]),
    decreases a.len() - i,
{
    if i < a.len() && i < b.len() && a[i] == b[i] {
        lemma_lex_total_from(a, b, i + 1);
    } else if i < a.len() && i < b.len() {
        vstd::utf8::char_u32_cast(a[i], a[i] as u32);
        vstd::utf8::char_u32_cast(b[i], b[i] as u32);
        assert((a[i] as u32) != (b[i] as u32));
    }
}

/// Two sequences are ordered one way or the other, or are equal.
pub proof fn lemma_lex_total(a: Seq<char>, b: Seq<char>)
    ensures
        spec_lex_lt(a, b) || spec_lex_lt(b, a) || a =~= b,
{
    lemma_lex_total_from(a, b, 0);
}

/// Nothing is lexicographically below itself.
pub proof fn lemma_lex_irrefl_from(a: Seq<char>, i: int)
    ensures
        !spec_lex_lt_from(a, a, i),
    decreases a.len() - i,
{
    if i < a.len() {
        lemma_lex_irrefl_from(a, i + 1);
    }
}

/// Nothing is lexicographically below itself; order implies inequality.
pub proof fn lemma_lex_irrefl(a: Seq<char>)
    ensures
        !spec_lex_lt(a, a),
{
    lemma_lex_irrefl_from(a, 0);
}

/// Decides `spec_lex_lt` on strings.
#[verifier::loop_isolation(false)]
pub fn str_lt(a: &String, b: &String) -> (r: bool)
    ensures
        r == spec_lex_lt(a@, b@),
{
    let an = a.as_str().unicode_len();
    let bn = b.as_str().unicode_len();
    let mut i: usize = 0;
    while i < an && i < bn
        invariant
            an == a@.len(),
            bn == b@.len(),
            0 <= i,
            i <= an,
            i <= bn,
            spec_lex_lt(a@, b@) == spec_lex_lt_from(a@, b@, i as int),
        decreases an - i,
    {
        let ca = a.as_str().get_char(i);
        let cb = b.as_str().get_char(i);
        if (ca as u32) < (cb as u32) {
            return true;
        }
        if ca != cb {
            return false;
        }
        i += 1;
    }
    i < bn
}

} // verus!
