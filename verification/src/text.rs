//! Text as sequences of characters: conversion between `str` and `Vec<char>`,
//! decimal notation, lexicographic order, joining and replacing.

use vstd::prelude::*;
use vstd::string::*;

verus! {

/// The characters of `s`, in order.
pub fn chars_of(s: &str) -> (v: Vec<char>)
    ensures
        v@ == s@,
{
    let mut v: Vec<char> = Vec::new();
    for c in it: s.chars()
        invariant
            v@ == it.seq().take(it.index() as int),
            it.seq() == s@,
    {
        v.push(c);
    }
    v
}

/// Collects `chars[from..to]` into a `String` through `String::from_iter`;
/// the string holds exactly those characters, in order.
#[verifier::external_body]
pub(crate) fn text_of(chars: &Vec<char>, from: usize, to: usize) -> (r: String)
    requires
        from <= to <= chars@.len(),
    ensures
        r@ == chars@.subrange(from as int, to as int),
{
    chars[from..to].iter().collect()
}

/// All of `chars` as a `String`.
pub fn text_of_all(chars: &Vec<char>) -> (r: String)
    ensures
        r@ == chars@,
{
    let r = text_of(chars, 0, chars.len());
    assert(chars@.subrange(0, chars@.len() as int) =~= chars@);
    r
}

/// The decimal digit for `d`, which is below ten.
pub open spec fn digit(d: nat) -> char {
    if d == 0 {
        '0'
    } else if d == 1 {
        '1'
    } else if d == 2 {
        '2'
    } else if d == 3 {
        '3'
    } else if d == 4 {
        '4'
    } else if d == 5 {
        '5'
    } else if d == 6 {
        '6'
    } else if d == 7 {
        '7'
    } else if d == 8 {
        '8'
    } else {
        '9'
    }
}

/// Decimal notation of a natural number, without leading zeros.
pub open spec fn decimal(n: nat) -> Seq<char>
    decreases n,
{
    if n < 10 {
        seq![digit(n)]
    } else {
        decimal(n / 10).push(digit(n % 10))
    }
}

/// Decimal notation of an integer, with a minus sign when negative.
pub open spec fn signed_decimal(i: int) -> Seq<char> {
    if i < 0 {
        seq!['-'] + decimal((-i) as nat)
    } else {
        decimal(i as nat)
    }
}

fn digit_of(d: u128) -> (c: char)
    requires
        d < 10,
    ensures
        c == digit(d as nat),
{
    if d == 0 {
        '0'
    } else if d == 1 {
        '1'
    } else if d == 2 {
        '2'
    } else if d == 3 {
        '3'
    } else if d == 4 {
        '4'
    } else if d == 5 {
        '5'
    } else if d == 6 {
        '6'
    } else if d == 7 {
        '7'
    } else if d == 8 {
        '8'
    } else {
        '9'
    }
}

/// Appends the decimal notation of `n` to `out`.
pub fn push_decimal(n: u128, out: &mut Vec<char>)
    ensures
        final(out)@ == old(out)@ + decimal(n as nat),
    decreases n,
{
    if n >= 10 {
        push_decimal(n / 10, out);
    }
    out.push(digit_of(n % 10));
    assert(out@ =~= old(out)@ + decimal(n as nat));
}

/// Decimal notation of `n`.
pub fn decimal_text(n: u128) -> (r: String)
    ensures
        r@ == decimal(n as nat),
{
    let mut out: Vec<char> = Vec::new();
    push_decimal(n, &mut out);
    assert(out@ =~= decimal(n as nat));
    text_of_all(&out)
}

/// Decimal notation of `i`, with a minus sign when negative.
pub fn signed_decimal_text(i: i64) -> (r: String)
    ensures
        r@ == signed_decimal(i as int),
{
    let mut out: Vec<char> = Vec::new();
    if i < 0 {
        out.push('-');
        let wide: i128 = i as i128;
        let magnitude: u128 = (-wide) as u128;
        push_decimal(magnitude, &mut out);
        assert(out@ =~= seq!['-'] + decimal((-i) as nat));
    } else {
        push_decimal(i as u128, &mut out);
        assert(out@ =~= decimal(i as nat));
    }
    text_of_all(&out)
}

/// `a + b` as a new string.
pub fn concat2(a: &str, b: &str) -> (r: String)
    ensures
        r@ == a@ + b@,
{
    let mut r: String = a.to_owned();
    r.append(b);
    r
}

/// Whether the characters of `a` and `b` are the same.
pub fn same_text(a: &str, b: &str) -> (r: bool)
    ensures
        r == (a@ == b@),
{
    let x: String = a.to_owned();
    let y: String = b.to_owned();
    x == y
}

/// Lexicographic order on texts by character code, from index `i` on,
/// given that the two agree before `i`: whether `a` comes before `b`
/// or equals it.
pub open spec fn lex_le_from(a: Seq<char>, b: Seq<char>, i: int) -> bool
    decreases a.len() - i,
{
    if i < 0 || i >= a.len() {
        true
    } else if i >= b.len() {
        false
    } else if (a[i] as u32) < (b[i] as u32) {
        true
    } else if (a[i] as u32) > (b[i] as u32) {
        false
    } else {
        lex_le_from(a, b, i + 1)
    }
}

/// Lexicographic order on texts by character code: `a` comes before `b`
/// or equals it.
pub open spec fn lex_le(a: Seq<char>, b: Seq<char>) -> bool {
    lex_le_from(a, b, 0)
}

/// Every text comes before itself or equals it.
pub proof fn lemma_lex_reflexive(a: Seq<char>, i: int)
    requires
        0 <= i,
    ensures
        lex_le_from(a, a, i),
    decreases a.len() - i,
{
    if i < a.len() {
        lemma_lex_reflexive(a, i + 1);
    }
}

/// Of two texts, one comes before the other or equals it.
pub proof fn lemma_lex_total(a: Seq<char>, b: Seq<char>, i: int)
    requires
        0 <= i,
    ensures
        lex_le_from(a, b, i) || lex_le_from(b, a, i),
    decreases a.len() - i,
{
    if i < a.len() && i < b.len() && (a[i] as u32) == (b[i] as u32) {
        lemma_lex_total(a, b, i + 1);
    }
}

/// The order on texts is transitive.
pub proof fn lemma_lex_transitive(a: Seq<char>, b: Seq<char>, c: Seq<char>, i: int)
    requires
        0 <= i,
        lex_le_from(a, b, i),
        lex_le_from(b, c, i),
    ensures
        lex_le_from(a, c, i),
    decreases a.len() - i,
{
    if i < a.len() {
        if (a[i] as u32) == (b[i] as u32) && (b[i] as u32) == (c[i] as u32) {
            lemma_lex_transitive(a, b, c, i + 1);
        }
    }
}

/// Decides `lex_le` on two character vectors.
pub fn lex_le_chars(a: &Vec<char>, b: &Vec<char>) -> (r: bool)
    ensures
        r == lex_le(a@, b@),
{
    let mut i: usize = 0;
    while i < a.len()
        invariant
            i <= a.len(),
            lex_le(a@, b@) == lex_le_from(a@, b@, i as int),
        decreases a.len() - i,
    {
        if i >= b.len() {
            return false;
        }
        let x: u32 = a[i] as u32;
        let y: u32 = b[i] as u32;
        if x < y {
            return true;
        }
        if x > y {
            return false;
        }
        i += 1;
    }
    true
}

/// `parts` joined with `sep` between neighbours, starting at index `i`.
pub open spec fn join_from(parts: Seq<Seq<char>>, sep: Seq<char>, i: int) -> Seq<char>
    decreases parts.len() - i,
{
    if i < 0 || i >= parts.len() {
        Seq::empty()
    } else if i == parts.len() - 1 {
        parts[i]
    } else {
        parts[i] + sep + join_from(parts, sep, i + 1)
    }
}

/// `parts` joined with `sep` between neighbours; empty for no parts.
pub open spec fn join(parts: Seq<Seq<char>>, sep: Seq<char>) -> Seq<char> {
    join_from(parts, sep, 0)
}

/// `parts[..n]` joined with `sep` between neighbours.
pub open spec fn join_first(parts: Seq<Seq<char>>, sep: Seq<char>, n: int) -> Seq<char>
    decreases n,
{
    if n <= 0 {
        Seq::empty()
    } else if n == 1 {
        parts[0]
    } else {
        join_first(parts, sep, n - 1) + sep + parts[n - 1]
    }
}

/// Joining from the front and joining from the back agree.
pub proof fn lemma_join_first(parts: Seq<Seq<char>>, sep: Seq<char>, i: int)
    requires
        0 <= i <= parts.len(),
    ensures
        join_first(parts, sep, parts.len() as int) == if i == 0 {
            join_from(parts, sep, 0)
        } else if i == parts.len() {
            join_first(parts, sep, i)
        } else {
            join_first(parts, sep, i) + sep + join_from(parts, sep, i)
        },
    decreases parts.len() - i,
{
    let n = parts.len() as int;
    if i == n {
    } else if i == 0 {
        if n == 1 {
        } else {
            lemma_join_first(parts, sep, 1);
            if 1 < n {
                assert(join_first(parts, sep, 1) == parts[0]);
            }
        }
    } else {
        lemma_join_first(parts, sep, i + 1);
        if i + 1 == n {
            assert(join_from(parts, sep, i) == parts[i]);
        } else {
            assert(join_first(parts, sep, i + 1) == join_first(parts, sep, i) + sep + parts[i]);
            assert(join_from(parts, sep, i) == parts[i] + sep + join_from(parts, sep, i + 1));
            assert(join_first(parts, sep, i) + sep + parts[i] + sep + join_from(parts, sep, i + 1)
                =~= join_first(parts, sep, i) + sep + (parts[i] + sep + join_from(parts, sep, i + 1)));
        }
    }
}

/// The texts of `v`, element by element.
pub open spec fn texts(v: Seq<String>) -> Seq<Seq<char>> {
    Seq::new(v.len(), |i: int| v[i]@)
}

/// Joins `parts` with `sep` between neighbours.
pub fn join_texts(parts: &Vec<String>, sep: &str) -> (r: String)
    ensures
        r@ == join(texts(parts@), sep@),
{
    let mut r: String = String::new();
    let mut i: usize = 0;
    let ghost all = texts(parts@);
    while i < parts.len()
        invariant
            i <= parts.len(),
            all == texts(parts@),
            r@ == join_first(all, sep@, i as int),
        decreases parts.len() - i,
    {
        if i > 0 {
            r.append(sep);
        }
        r.append(parts[i].as_str());
        proof {
            assert(all[i as int] == parts@[i as int]@);
            if i == 0 {
                assert(r@ =~= all[0]);
            }
        }
        i += 1;
    }
    proof {
        lemma_join_first(all, sep@, 0);
    }
    r
}

/// `s` with every occurrence of the character `from` replaced by `to`.
pub open spec fn replace_char(s: Seq<char>, from: char, to: char) -> Seq<char> {
    Seq::new(s.len(), |i: int| if s[i] == from { to } else { s[i] })
}

/// Replaces every occurrence of the character `from` in `s` by `to`.
pub fn replace_char_text(s: &str, from: char, to: char) -> (r: String)
    ensures
        r@ == replace_char(s@, from, to),
{
    let chars = chars_of(s);
    let mut out: Vec<char> = Vec::new();
    let mut i: usize = 0;
    while i < chars.len()
        invariant
            i <= chars.len(),
            chars@ == s@,
            out@ == replace_char(s@, from, to).take(i as int),
        decreases chars.len() - i,
    {
        let c: char = chars[i];
        if c == from {
            out.push(to);
        } else {
            out.push(c);
        }
        i += 1;
        assert(out@ =~= replace_char(s@, from, to).take(i as int));
    }
    assert(out@ =~= replace_char(s@, from, to));
    text_of_all(&out)
}

/// `inner` followed by `a`, where there is an inner text.
pub open spec fn followed(inner: Option<Seq<char>>, a: Seq<char>) -> Option<Seq<char>> {
    match inner {
        Some(m) => Some(m + a),
        None => None,
    }
}

/// `a + b + c` as a new string.
pub fn concat3(a: &str, b: &str, c: &str) -> (r: String)
    ensures
        r@ == a@ + b@ + c@,
{
    let mut r: String = a.to_owned();
    r.append(b);
    r.append(c);
    r
}

/// `a + b + c + d` as a new string.
pub fn concat4(a: &str, b: &str, c: &str, d: &str) -> (r: String)
    ensures
        r@ == a@ + b@ + c@ + d@,
{
    let mut r: String = concat3(a, b, c);
    r.append(d);
    r
}

/// `a + b + c + d + e` as a new string.
pub fn concat5(a: &str, b: &str, c: &str, d: &str, e: &str) -> (r: String)
    ensures
        r@ == a@ + b@ + c@ + d@ + e@,
{
    let mut r: String = concat4(a, b, c, d);
    r.append(e);
    r
}

/// `a + b + c + d + e + f` as a new string.
pub fn concat6(a: &str, b: &str, c: &str, d: &str, e: &str, f: &str) -> (r: String)
    ensures
        r@ == a@ + b@ + c@ + d@ + e@ + f@,
{
    let mut r: String = concat5(a, b, c, d, e);
    r.append(f);
    r
}

/// The first `n` characters of `s`, with four blanks behind each line
/// break.
pub open spec fn indented_first(s: Seq<char>, n: int) -> Seq<char>
    decreases n,
{
    if n <= 0 {
        Seq::empty()
    } else if s[n - 1] == '\n' {
        indented_first(s, n - 1) + seq!['\n', ' ', ' ', ' ', ' ']
    } else {
        indented_first(s, n - 1).push(s[n - 1])
    }
}

/// `s` with four blanks behind each line break.
pub open spec fn indented(s: Seq<char>) -> Seq<char> {
    indented_first(s, s.len() as int)
}

/// `s` with four blanks behind each line break.
pub fn indent(s: &str) -> (r: String)
    ensures
        r@ == indented(s@),
{
    let chars = chars_of(s);
    let mut out: Vec<char> = Vec::new();
    let mut i: usize = 0;
    while i < chars.len()
        invariant
            i <= chars.len(),
            chars@ == s@,
            out@ == indented_first(s@, i as int),
        decreases chars.len() - i,
    {
        let c: char = chars[i];
        let ghost before = out@;
        out.push(c);
        if c == '\n' {
            out.push(' ');
            out.push(' ');
            out.push(' ');
            out.push(' ');
            assert(out@ =~= before + seq!['\n', ' ', ' ', ' ', ' ']);
        }
        i += 1;
    }
    text_of_all(&out)
}

/// `true` or `false`, as it is written.
pub open spec fn bool_text(b: bool) -> Seq<char> {
    if b {
        "true"@
    } else {
        "false"@
    }
}

} // verus!
