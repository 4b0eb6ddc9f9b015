//! Character-level text utilities: conversion between strings and character
//! vectors, lexicographic comparison, decimal rendering and parsing, and
//! whitespace trimming.  Everything here is stated over `Seq<char>` views.

use vstd::prelude::*;
use vstd::std_specs::iter::IteratorSpec;

verus! {

broadcast use vstd::string::next_postcondition, vstd::utf8::char_u32_cast;

/// Collects the characters of a string slice into a vector, in order.
pub fn chars_of(s: &str) -> (r: Vec<char>)
    ensures
        r@ == s@,
{
    let mut it = s.chars();
    proof {
        vstd::string::axiom_spec_iter(s);
    }
    let mut r: Vec<char> = Vec::new();
    loop
        invariant
            it.obeys_prophetic_iter_laws(),
            it.decrease() is Some,
            r@ + it.remaining() == s@,
        ensures
            r@ == s@,
        decreases it.decrease().unwrap(),
    {
        match it.next() {
            Some(c) => {
                r.push(c);
                proof {
                    assert(r@ + it.remaining() =~= s@);
                }
            }
            None => {
                proof {
                    assert(r@ =~= s@);
                }
                break;
            }
        }
    }
    r
}

/// Relies on `String::push`: appends exactly one character at the end.
#[verifier::external_body]
fn push_char(s: &mut String, c: char)
    ensures
        final(s)@ == old(s)@.push(c),
{
    s.push(c);
}

/// Builds a `String` whose view is exactly the given character sequence.
pub fn string_from_chars(chars: &Vec<char>) -> (r: String)
    ensures
        r@ == chars@,
{
    let mut r = String::new();
    let mut i: usize = 0;
    while i < chars.len()
        invariant
            i <= chars.len(),
            r@ == chars@.subrange(0, i as int),
        decreases chars.len() - i,
    {
        push_char(&mut r, chars[i]);
        proof {
            assert(r@ =~= chars@.subrange(0, i + 1 as int));
        }
        i = i + 1;
    }
    proof {
        assert(r@ =~= chars@);
    }
    r
}

/// Three-way lexicographic comparison of two character sequences by code
/// point: negative when `a` orders first, zero when equal, positive when `b`
/// orders first.  This matches byte-wise comparison of the UTF-8 encodings.
pub open spec fn lex_cmp(a: Seq<char>, b: Seq<char>) -> int
    decreases a.len(),
{
    if a.len() == 0 && b.len() == 0 {
        0
    } else if a.len() == 0 {
        -1
    } else if b.len() == 0 {
        1
    } else if (a[0] as u32) < (b[0] as u32) {
        -1
    } else if (a[0] as u32) > (b[0] as u32) {
        1
    } else {
        lex_cmp(a.drop_first(), b.drop_first())
    }
}

/// `a` orders strictly before `b`.
pub open spec fn lex_lt(a: Seq<char>, b: Seq<char>) -> bool {
    lex_cmp(a, b) < 0
}

/// Equal sequences compare as zero, and a zero comparison means equality.
pub proof fn lemma_lex_cmp_eq(a: Seq<char>, b: Seq<char>)
    ensures
        lex_cmp(a, b) == 0 <==> a == b,
    decreases a.len(),
{
    if a.len() == 0 && b.len() == 0 {
        assert(a =~= b);
    } else if a.len() == 0 || b.len() == 0 {
        assert(a != b);
    } else if (a[0] as u32) == (b[0] as u32) {
        assert(a[0] == b[0]) by {
            vstd::utf8::char_u32_cast(a[0], a[0] as u32);
            vstd::utf8::char_u32_cast(b[0], b[0] as u32);
        }
        lemma_lex_cmp_eq(a.drop_first(), b.drop_first());
        if lex_cmp(a, b) == 0 {
            assert(a.drop_first() == b.drop_first());
            assert forall|i: int| 0 <= i < a.len() implies a[i] == b[i] by {
                if i > 0 {
                    assert(a[i] == a.drop_first()[i - 1]);
                    assert(b[i] == b.drop_first()[i - 1]);
                }
            }
            assert(a =~= b);
        }
        if a == b {
            assert(a.drop_first() =~= b.drop_first());
        }
    } else {
        assert(a[0] != b[0]);
        assert(a != b);
    }
}


/// The comparison only takes the three values -1, 0 and 1.
pub proof fn lemma_lex_cmp_range(a: Seq<char>, b: Seq<char>)
    ensures
        -1 <= lex_cmp(a, b) <= 1,
    decreases a.len(),
{
    if a.len() != 0 && b.len() != 0 && (a[0] as u32) == (b[0] as u32) {
        lemma_lex_cmp_range(a.drop_first(), b.drop_first());
    }
}


/// Comparison is antisymmetric: swapping the arguments flips the sign.
pub proof fn lemma_lex_cmp_flip(a: Seq<char>, b: Seq<char>)
    ensures
        lex_cmp(a, b) == -lex_cmp(b, a),
    decreases a.len(),
{
    if a.len() != 0 && b.len() != 0 && (a[0] as u32) == (b[0] as u32) {
        lemma_lex_cmp_flip(a.drop_first(), b.drop_first());
    }
}

/// The strict order is transitive.
pub proof fn lemma_lex_cmp_trans(a: Seq<char>, b: Seq<char>, c: Seq<char>)
    requires
        lex_cmp(a, b) < 0,
        lex_cmp(b, c) < 0,
    ensures
        lex_cmp(a, c) < 0,
    decreases a.len(),
{
    if a.len() == 0 {
        assert(c.len() != 0);
    } else {
        assert(b.len() != 0);
        assert(c.len() != 0);
        let ua = a[0] as u32;
        let ub = b[0] as u32;
        let uc = c[0] as u32;
        assert(ua <= ub);
        assert(ub <= uc);
        if ua == uc {
            lemma_lex_cmp_trans(a.drop_first(), b.drop_first(), c.drop_first());
        }
    }
}

fn cmp_chars_from(a: &Vec<char>, b: &Vec<char>, i: usize) -> (r: i32)
    requires
        i <= a.len(),
        i <= b.len(),
    ensures
        r == lex_cmp(a@.skip(i as int), b@.skip(i as int)),
    decreases a.len() - i,
{
    let ghost sa = a@.skip(i as int);
    let ghost sb = b@.skip(i as int);
    if i == a.len() && i == b.len() {
        0
    } else if i == a.len() {
        -1
    } else if i == b.len() {
        1
    } else {
        let ca = a[i] as u32;
        let cb = b[i] as u32;
        if ca < cb {
            -1
        } else if ca > cb {
            1
        } else {
            let r = cmp_chars_from(a, b, i + 1);
            proof {
                assert(a@.skip(i + 1 as int) =~= sa.drop_first());
                assert(b@.skip(i + 1 as int) =~= sb.drop_first());
            }
            r
        }
    }
}

/// Three-way comparison of two character vectors; agrees with [`lex_cmp`]
/// on the views.
pub fn cmp_chars(a: &Vec<char>, b: &Vec<char>) -> (r: i32)
    ensures
        r == lex_cmp(a@, b@),
{
    let r = cmp_chars_from(a, b, 0);
    proof {
        assert(a@.skip(0) =~= a@);
        assert(b@.skip(0) =~= b@);
    }
    r
}

/// Three-way comparison of two string slices; agrees with [`lex_cmp`] on the
/// views.
pub fn cmp_str(a: &str, b: &str) -> (r: i32)
    ensures
        r == lex_cmp(a@, b@),
{
    let av = chars_of(a);
    let bv = chars_of(b);
    cmp_chars(&av, &bv)
}

/// Whether two string slices hold the same characters.
pub fn str_eq(a: &str, b: &str) -> (r: bool)
    ensures
        r == (a@ == b@),
{
    let c = cmp_str(a, b);
    proof {
        lemma_lex_cmp_eq(a@, b@);
    }
    c == 0
}

/// The character for one decimal digit value.
pub open spec fn digit_char(d: int) -> char {
    if d == 0 {
        '0'
    } else if d == 1 {
        '1'
    } else if d == 2 {
        '2'
    } else if d == 3 {
        '3'
    } else if d == 4 {
        '4'
    } else if d == 5 {
        '5'
    } else if d == 6 {
        '6'
    } else if d == 7 {
        '7'
    } else if d == 8 {
        '8'
    } else {
        '9'
    }
}

/// The decimal rendering of a natural number, most significant digit first,
/// with no leading zeros (zero itself renders as "0").
pub open spec fn dec_seq(n: nat) -> Seq<char>
    decreases n,
{
    if n < 10 {
        seq![digit_char(n as int)]
    } else {
        dec_seq(n / 10).push(digit_char((n % 10) as int))
    }
}

fn digit_char_exec(d: u64) -> (c: char)
    requires
        d < 10,
    ensures
        c == digit_char(d as int),
{
    if d == 0 {
        '0'
    } else if d == 1 {
        '1'
    } else if d == 2 {
        '2'
    } else if d == 3 {
        '3'
    } else if d == 4 {
        '4'
    } else if d == 5 {
        '5'
    } else if d == 6 {
        '6'
    } else if d == 7 {
        '7'
    } else if d == 8 {
        '8'
    } else {
        '9'
    }
}

/// Appends the decimal rendering of a number.
pub fn u64_dec_chars(n: u64, out: &mut Vec<char>)
    ensures
        final(out)@ == old(out)@ + dec_seq(n as nat),
    decreases n,
{
    if n < 10 {
        let c = digit_char_exec(n);
        out.push(c);
    } else {
        u64_dec_chars(n / 10, out);
        let c = digit_char_exec(n % 10);
        out.push(c);
    }
}

/// Renders a number in decimal.
pub fn u64_to_string(n: u64) -> (r: String)
    ensures
        r@ == dec_seq(n as nat),
{
    let mut chars: Vec<char> = Vec::new();
    u64_dec_chars(n, &mut chars);
    proof {
        assert(chars@ =~= dec_seq(n as nat));
    }
    string_from_chars(&chars)
}

/// The numeric value of one decimal digit character, or none.
pub open spec fn digit_val(c: char) -> Option<int> {
    if c == '0' {
        Some(0int)
    } else if c == '1' {
        Some(1int)
    } else if c == '2' {
        Some(2int)
    } else if c == '3' {
        Some(3int)
    } else if c == '4' {
        Some(4int)
    } else if c == '5' {
        Some(5int)
    } else if c == '6' {
        Some(6int)
    } else if c == '7' {
        Some(7int)
    } else if c == '8' {
        Some(8int)
    } else if c == '9' {
        Some(9int)
    } else {
        None
    }
}

/// Whether every character of the sequence is a decimal digit.
pub open spec fn all_digits(s: Seq<char>) -> bool {
    forall|i: int| 0 <= i < s.len() ==> #[trigger] digit_val(s[i]) is Some
}

/// The value of a sequence of decimal digit characters.
pub open spec fn dec_val(s: Seq<char>) -> int
    decreases s.len(),
{
    if s.len() == 0 {
        0
    } else {
        dec_val(s.drop_last()) * 10 + digit_val(s.last()).unwrap_or(0)
    }
}

fn digit_val_exec(c: char) -> (r: Option<u64>)
    ensures
        match r {
            Some(v) => digit_val(c) == Some(v as int),
            None => digit_val(c) is None,
        },
{
    if c == '0' {
        Some(0)
    } else if c == '1' {
        Some(1)
    } else if c == '2' {
        Some(2)
    } else if c == '3' {
        Some(3)
    } else if c == '4' {
        Some(4)
    } else if c == '5' {
        Some(5)
    } else if c == '6' {
        Some(6)
    } else if c == '7' {
        Some(7)
    } else if c == '8' {
        Some(8)
    } else if c == '9' {
        Some(9)
    } else {
        None
    }
}

proof fn lemma_dec_val_bounds(s: Seq<char>)
    requires
        all_digits(s),
    ensures
        0 <= dec_val(s),
    decreases s.len(),
{
    if s.len() > 0 {
        assert(all_digits(s.drop_last())) by {
            assert(forall|i: int|
                0 <= i < s.len() - 1 ==> #[trigger] digit_val(s.drop_last()[i]) == digit_val(
                    s[i],
                ));
        }
        lemma_dec_val_bounds(s.drop_last());
    }
}

/// Parses a non-empty, all-digit character vector as a decimal number.
/// Returns none when the vector is empty, holds a non-digit, or the value
/// does not fit in a `u64`.
pub fn parse_u64_chars(s: &Vec<char>) -> (r: Option<u64>)
    ensures
        match r {
            Some(v) => s@.len() > 0 && all_digits(s@) && dec_val(s@) == v as int,
            None => s@.len() == 0 || !all_digits(s@) || dec_val(s@) > u64::MAX as int,
        },
{
    if s.len() == 0 {
        return None;
    }
    let mut acc: u64 = 0;
    let mut i: usize = 0;
    while i < s.len()
        invariant
            i <= s.len(),
            s@.len() > 0,
            all_digits(s@.subrange(0, i as int)),
            acc as int == dec_val(s@.subrange(0, i as int)),
        decreases s.len() - i,
    {
        let ghost pre = s@.subrange(0, i as int);
        let d = match digit_val_exec(s[i]) {
            Some(d) => d,
            None => {
                return None;
            }
        };
        let wide: u128 = acc as u128 * 10 + d as u128;
        proof {
            let cur = s@.subrange(0, i + 1 as int);
            assert(cur.drop_last() =~= pre);
            assert(cur.last() == s@[i as int]);
            assert(dec_val(cur) == acc as int * 10 + d as int);
        }
        if wide > u64::MAX as u128 {
            proof {
                lemma_dec_val_bounds(pre);
                lemma_prefix_le(s@, i + 1 as int);
            }
            return None;
        }
        acc = wide as u64;
        i = i + 1;
    }
    proof {
        assert(s@.subrange(0, s@.len() as int) =~= s@);
    }
    Some(acc)
}

/// Extending a prefix whose value is non-negative never lowers the value:
/// the value of such a prefix is a lower bound for the whole sequence.
proof fn lemma_prefix_le(s: Seq<char>, i: int)
    requires
        0 <= i <= s.len(),
        dec_val(s.subrange(0, i)) >= 0,
    ensures
        dec_val(s.subrange(0, i)) <= dec_val(s),
    decreases s.len() - i,
{
    if i < s.len() {
        let a = s.subrange(0, i);
        let b = s.subrange(0, i + 1);
        assert(b.drop_last() =~= a);
        assert(dec_val(b) >= dec_val(a));
        lemma_prefix_le(s, i + 1);
    } else {
        assert(s.subrange(0, i) =~= s);
    }
}

/// The Unicode white-space characters, as the standard library documents
/// them for `char::is_whitespace`.
pub open spec fn is_space(c: char) -> bool {
    c == ' ' || c == '\t' || c == '\n' || c == '\u{b}' || c == '\u{c}' || c == '\r' || c
        == '\u{85}' || c == '\u{a0}' || c == '\u{1680}' || c == '\u{2000}' || c == '\u{2001}' || c
        == '\u{2002}' || c == '\u{2003}' || c == '\u{2004}' || c == '\u{2005}' || c == '\u{2006}'
        || c == '\u{2007}' || c == '\u{2008}' || c == '\u{2009}' || c == '\u{200a}' || c
        == '\u{2028}' || c == '\u{2029}' || c == '\u{202f}' || c == '\u{205f}' || c == '\u{3000}'
}

/// Whether `c` is a white-space character.
pub fn is_space_exec(c: char) -> (r: bool)
    ensures
        r == is_space(c),
{
    c == ' ' || c == '\t' || c == '\n' || c == '\u{b}' || c == '\u{c}' || c == '\r' || c
        == '\u{85}' || c == '\u{a0}' || c == '\u{1680}' || c == '\u{2000}' || c == '\u{2001}' || c
        == '\u{2002}' || c == '\u{2003}' || c == '\u{2004}' || c == '\u{2005}' || c == '\u{2006}'
        || c == '\u{2007}' || c == '\u{2008}' || c == '\u{2009}' || c == '\u{200a}' || c
        == '\u{2028}' || c == '\u{2029}' || c == '\u{202f}' || c == '\u{205f}' || c == '\u{3000}'
}

/// The sequence with leading and trailing white space removed.
pub open spec fn trim_spec(s: Seq<char>) -> Seq<char>
    decreases s.len(),
{
    if s.len() == 0 {
        s
    } else if is_space(s[0]) {
        trim_spec(s.drop_first())
    } else if is_space(s.last()) {
        trim_spec(s.drop_last())
    } else {
        s
    }
}

/// Removes leading and trailing white space from a character vector.
pub fn trim_chars(s: &Vec<char>) -> (r: Vec<char>)
    ensures
        r@ == trim_spec(s@),
{
    let mut lo: usize = 0;
    let mut hi: usize = s.len();
    proof {
        assert(s@.subrange(0, s@.len() as int) =~= s@);
    }
    while lo < hi && is_space_exec(s[lo])
        invariant
            lo <= hi <= s.len(),
            trim_spec(s@) == trim_spec(s@.subrange(lo as int, hi as int)),
        decreases hi - lo,
    {
        proof {
            let cur = s@.subrange(lo as int, hi as int);
            assert(cur.drop_first() =~= s@.subrange(lo + 1 as int, hi as int));
        }
        lo = lo + 1;
    }
    while lo < hi && is_space_exec(s[hi - 1])
        invariant
            lo <= hi <= s.len(),
            trim_spec(s@) == trim_spec(s@.subrange(lo as int, hi as int)),
            lo < hi ==> !is_space(s@[lo as int]),
        decreases hi - lo,
    {
        proof {
            let cur = s@.subrange(lo as int, hi as int);
            assert(cur.drop_last() =~= s@.subrange(lo as int, hi - 1 as int));
        }
        hi = hi - 1;
    }
    let mut r: Vec<char> = Vec::new();
    let mut i: usize = lo;
    while i < hi
        invariant
            lo <= i <= hi <= s.len(),
            r@ == s@.subrange(lo as int, i as int),
        decreases hi - i,
    {
        r.push(s[i]);
        proof {
            assert(r@ =~= s@.subrange(lo as int, i + 1 as int));
        }
        i = i + 1;
    }
    proof {
        let cur = s@.subrange(lo as int, hi as int);
        if lo < hi {
            assert(!is_space(cur[0]));
            assert(!is_space(cur.last()));
        }
        assert(trim_spec(cur) == cur);
        assert(r@ =~= cur);
    }
    r
}


/// The views of a sequence of strings.
pub open spec fn strings_view(s: Seq<String>) -> Seq<Seq<char>> {
    Seq::new(s.len(), |i: int| s[i]@)
}

/// The views of a sequence of character vectors.
pub open spec fn chunks_view(s: Seq<Vec<char>>) -> Seq<Seq<char>> {
    Seq::new(s.len(), |i: int| s[i]@)
}

/// Whether `p` is a prefix of `s`.
pub open spec fn has_prefix(s: Seq<char>, p: Seq<char>) -> bool {
    s.len() >= p.len() && s.subrange(0, p.len() as int) == p
}

/// Whether the character vector starts with the given string.
pub fn starts_with_chars(s: &Vec<char>, p: &str) -> (r: bool)
    ensures
        r == has_prefix(s@, p@),
{
    let pc = chars_of(p);
    let pl = pc.len();
    if pl > s.len() {
        return false;
    }
    let mut i: usize = 0;
    while i < pl
        invariant
            pl == pc@.len(),
            pc@ == p@,
            pl <= s@.len(),
            i <= pl,
            forall|j: int| 0 <= j < i ==> s@[j] == p@[j],
        decreases pl - i,
    {
        if s[i] != pc[i] {
            proof {
                assert(s@.subrange(0, p@.len() as int)[i as int] == s@[i as int]);
            }
            return false;
        }
        i = i + 1;
    }
    proof {
        assert(s@.subrange(0, p@.len() as int) =~= p@);
    }
    true
}

/// The first position at or after `from` where the character `c` occurs.
pub open spec fn find_from(s: Seq<char>, c: char, from: int) -> Option<int>
    decreases s.len() - from,
    when 0 <= from
{
    if from >= s.len() {
        None
    } else if s[from] == c {
        Some(from)
    } else {
        find_from(s, c, from + 1)
    }
}

/// The first white-space position at or after `from`.
pub open spec fn find_space_from(s: Seq<char>, from: int) -> Option<int>
    decreases s.len() - from,
    when 0 <= from
{
    if from >= s.len() {
        None
    } else if is_space(s[from]) {
        Some(from)
    } else {
        find_space_from(s, from + 1)
    }
}

/// A line with a trailing carriage return removed.
pub open spec fn strip_cr(p: Seq<char>) -> Seq<char> {
    if p.len() > 0 && p.last() == '\r' {
        p.drop_last()
    } else {
        p
    }
}

/// The lines of a text, as the standard library's line iterator yields
/// them: pieces between newlines, each with a trailing carriage return
/// removed, and nothing after a final newline.
pub open spec fn lines_spec(s: Seq<char>) -> Seq<Seq<char>>
    decreases s.len(),
{
    if s.len() == 0 {
        Seq::empty()
    } else {
        match find_from(s, '\n', 0) {
            None => seq![strip_cr(s)],
            Some(i) => if 0 <= i < s.len() {
                seq![strip_cr(s.subrange(0, i))] + lines_spec(s.subrange(i + 1, s.len() as int))
            } else {
                Seq::empty()
            },
        }
    }
}

/// The white-space-separated tokens of a sequence, in order, with empty
/// tokens never produced.
pub open spec fn split_ws_spec(s: Seq<char>) -> Seq<Seq<char>>
    decreases s.len(),
{
    if s.len() == 0 {
        Seq::empty()
    } else if is_space(s[0]) {
        split_ws_spec(s.drop_first())
    } else {
        match find_space_from(s, 0) {
            None => seq![s],
            Some(i) => if 0 < i < s.len() {
                seq![s.subrange(0, i)] + split_ws_spec(s.subrange(i, s.len() as int))
            } else {
                Seq::empty()
            },
        }
    }
}

fn find_char_in(s: &Vec<char>, c: char, from: usize) -> (r: Option<usize>)
    requires
        from <= s@.len(),
    ensures
        (match r {
            Some(v) => find_from(s@, c, from as int) == Some(v as int),
            None => find_from(s@, c, from as int) is None,
        }),
{
    let sl = s.len();
    let mut i: usize = from;
    while i < sl
        invariant
            sl == s@.len(),
            from <= i <= sl,
            find_from(s@, c, from as int) == find_from(s@, c, i as int),
        decreases sl - i,
    {
        if s[i] == c {
            return Some(i);
        }
        i = i + 1;
    }
    None
}

fn find_space_in(s: &Vec<char>, from: usize) -> (r: Option<usize>)
    requires
        from <= s@.len(),
    ensures
        (match r {
            Some(v) => find_space_from(s@, from as int) == Some(v as int),
            None => find_space_from(s@, from as int) is None,
        }),
{
    let sl = s.len();
    let mut i: usize = from;
    while i < sl
        invariant
            sl == s@.len(),
            from <= i <= sl,
            find_space_from(s@, from as int) == find_space_from(s@, i as int),
        decreases sl - i,
    {
        if is_space_exec(s[i]) {
            return Some(i);
        }
        i = i + 1;
    }
    None
}

fn subrange_chars(s: &Vec<char>, lo: usize, hi: usize) -> (r: Vec<char>)
    requires
        lo <= hi <= s@.len(),
    ensures
        r@ == s@.subrange(lo as int, hi as int),
{
    let mut r: Vec<char> = Vec::new();
    let mut i: usize = lo;
    while i < hi
        invariant
            lo <= i <= hi <= s@.len(),
            r@ == s@.subrange(lo as int, i as int),
        decreases hi - i,
    {
        r.push(s[i]);
        proof {
            assert(r@ =~= s@.subrange(lo as int, i + 1 as int));
        }
        i = i + 1;
    }
    r
}

/// Splits a text into its lines.
pub fn lines_of(s: &Vec<char>) -> (r: Vec<Vec<char>>)
    ensures
        chunks_view(r@) == lines_spec(s@),
    decreases s@.len(),
{
    let mut r: Vec<Vec<char>> = Vec::new();
    if s.len() == 0 {
        proof {
            assert(chunks_view(r@) =~= lines_spec(s@));
        }
        return r;
    }
    match find_char_in(s, '\n', 0) {
        None => {
            let mut piece = subrange_chars(s, 0, s.len());
            proof {
                assert(piece@ =~= s@);
            }
            if piece.len() > 0 && piece[piece.len() - 1] == '\r' {
                let ghost pre = piece@;
                piece.pop();
                proof {
                    assert(piece@ =~= pre.drop_last());
                }
            }
            r.push(piece);
            proof {
                assert(chunks_view(r@) =~= lines_spec(s@));
            }
            r
        }
        Some(i) => {
            proof {
                lemma_find_in_range(s@, '\n', 0);
            }
            let mut piece = subrange_chars(s, 0, i);
            if piece.len() > 0 && piece[piece.len() - 1] == '\r' {
                let ghost pre = piece@;
                piece.pop();
                proof {
                    assert(piece@ =~= pre.drop_last());
                }
            }
            let rest = subrange_chars(s, i + 1, s.len());
            let mut tail = lines_of(&rest);
            r.push(piece);
            let ghost after_head = r@;
            let mut j: usize = 0;
            let tl = tail.len();
            let ghost tail_orig = tail@;
            while tail.len() > 0
                invariant
                    tail@.len() <= tail_orig.len(),
                    tail@ == tail_orig.subrange(
                        tail_orig.len() - tail@.len(),
                        tail_orig.len() as int,
                    ),
                    chunks_view(r@) == chunks_view(after_head) + chunks_view(
                        tail_orig.subrange(0, tail_orig.len() - tail@.len()),
                    ),
                decreases tail@.len(),
            {
                let ghost t = tail_orig.len() - tail@.len();
                let ghost r_pre = r@;
                let x = tail.remove(0);
                let ghost xv = x@;
                proof {
                    assert(x == tail_orig[t]);
                    assert(tail@ =~= tail_orig.subrange(t + 1, tail_orig.len() as int));
                }
                r.push(x);
                proof {
                    assert(chunks_view(r@) =~= chunks_view(r_pre).push(xv));
                    assert(chunks_view(tail_orig.subrange(0, t + 1)) =~= chunks_view(
                        tail_orig.subrange(0, t),
                    ).push(xv));
                    assert((chunks_view(after_head) + chunks_view(
                        tail_orig.subrange(0, t),
                    )).push(xv) =~= chunks_view(after_head) + chunks_view(
                        tail_orig.subrange(0, t),
                    ).push(xv));
                    assert(chunks_view(r@) =~= chunks_view(after_head) + chunks_view(
                        tail_orig.subrange(0, t + 1),
                    ));
                }
            }
            proof {
                assert(tail_orig.subrange(0, tail_orig.len() as int) =~= tail_orig);
                assert(chunks_view(r@) =~= lines_spec(s@));
            }
            r
        }
    }
}

/// When a character search succeeds, the position lies in the sequence at
/// or after the starting point and holds the character.
proof fn lemma_find_in_range(s: Seq<char>, c: char, from: int)
    requires
        0 <= from,
        find_from(s, c, from) is Some,
    ensures
        from <= find_from(s, c, from)->Some_0 < s.len(),
        s[find_from(s, c, from)->Some_0] == c,
    decreases s.len() - from,
{
    if from < s.len() && s[from] != c {
        lemma_find_in_range(s, c, from + 1);
    }
}

/// Splits a sequence into its white-space-separated tokens.
pub fn split_ws(s: &Vec<char>) -> (r: Vec<Vec<char>>)
    ensures
        chunks_view(r@) == split_ws_spec(s@),
    decreases s@.len(),
{
    let mut r: Vec<Vec<char>> = Vec::new();
    if s.len() == 0 {
        proof {
            assert(chunks_view(r@) =~= split_ws_spec(s@));
        }
        return r;
    }
    if is_space_exec(s[0]) {
        let rest = subrange_chars(s, 1, s.len());
        proof {
            assert(rest@ =~= s@.drop_first());
        }
        let r = split_ws(&rest);
        return r;
    }
    match find_space_in(s, 0) {
        None => {
            let piece = subrange_chars(s, 0, s.len());
            proof {
                assert(piece@ =~= s@);
            }
            r.push(piece);
            proof {
                assert(chunks_view(r@) =~= split_ws_spec(s@));
            }
            r
        }
        Some(i) => {
            proof {
                lemma_find_space_in_range(s@, 0);
            }
            let piece = subrange_chars(s, 0, i);
            let rest = subrange_chars(s, i, s.len());
            let mut tail = split_ws(&rest);
            r.push(piece);
            let ghost after_head = r@;
            let ghost tail_orig = tail@;
            while tail.len() > 0
                invariant
                    tail@.len() <= tail_orig.len(),
                    tail@ == tail_orig.subrange(
                        tail_orig.len() - tail@.len(),
                        tail_orig.len() as int,
                    ),
                    chunks_view(r@) == chunks_view(after_head) + chunks_view(
                        tail_orig.subrange(0, tail_orig.len() - tail@.len()),
                    ),
                decreases tail@.len(),
            {
                let ghost t = tail_orig.len() - tail@.len();
                let ghost r_pre = r@;
                let x = tail.remove(0);
                let ghost xv = x@;
                proof {
                    assert(x == tail_orig[t]);
                    assert(tail@ =~= tail_orig.subrange(t + 1, tail_orig.len() as int));
                }
                r.push(x);
                proof {
                    assert(chunks_view(r@) =~= chunks_view(r_pre).push(xv));
                    assert(chunks_view(tail_orig.subrange(0, t + 1)) =~= chunks_view(
                        tail_orig.subrange(0, t),
                    ).push(xv));
                    assert((chunks_view(after_head) + chunks_view(
                        tail_orig.subrange(0, t),
                    )).push(xv) =~= chunks_view(after_head) + chunks_view(
                        tail_orig.subrange(0, t),
                    ).push(xv));
                    assert(chunks_view(r@) =~= chunks_view(after_head) + chunks_view(
                        tail_orig.subrange(0, t + 1),
                    ));
                }
            }
            proof {
                assert(tail_orig.subrange(0, tail_orig.len() as int) =~= tail_orig);
                assert(chunks_view(r@) =~= split_ws_spec(s@));
            }
            r
        }
    }
}

/// When a white-space search succeeds, the position lies in the sequence
/// at or after the starting point and holds white space.
proof fn lemma_find_space_in_range(s: Seq<char>, from: int)
    requires
        0 <= from,
        find_space_from(s, from) is Some,
    ensures
        from <= find_space_from(s, from)->Some_0 < s.len(),
        is_space(s[find_space_from(s, from)->Some_0]),
    decreases s.len() - from,
{
    if from < s.len() && !is_space(s[from]) {
        lemma_find_space_in_range(s, from + 1);
    }
}


} // verus!
