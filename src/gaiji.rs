//! Resolution of glyph references to characters.
//!
//! A glyph description may spell out the code point of its character in the
//! `U+XXXX` notation (four to six hexadecimal digits), as in `「丸印」、U+25CB`.
//! A description without one resolves to nothing.
use vstd::prelude::*;

use crate::text::chars_of;

verus! {

/// Whether `c` is an ASCII hexadecimal digit.
pub open spec fn is_hex_digit(c: char) -> bool {
    ('0' <= c && c <= '9') || ('A' <= c && c <= 'F') || ('a' <= c && c <= 'f')
}

/// The value of the hexadecimal digit `c`.
pub open spec fn hex_digit_value(c: char) -> nat {
    if '0' <= c && c <= '9' {
        (c as u32 - '0' as u32) as nat
    } else if 'A' <= c && c <= 'F' {
        (c as u32 - 'A' as u32 + 10) as nat
    } else {
        (c as u32 - 'a' as u32 + 10) as nat
    }
}

/// The end of the run of hexadecimal digits that starts at `i`.
pub open spec fn hex_run_end(s: Seq<char>, i: int) -> int
    decreases s.len() - i,
{
    if 0 <= i < s.len() && is_hex_digit(s[i]) {
        hex_run_end(s, i + 1)
    } else {
        i
    }
}

/// The number that the hexadecimal digits `s[i..j]` spell.
pub open spec fn hex_value(s: Seq<char>, i: int, j: int) -> nat
    decreases j - i,
{
    if j <= i {
        0
    } else {
        hex_value(s, i, j - 1) * 16 + hex_digit_value(s[j - 1])
    }
}

/// Whether `v` is the code point of a character: not a surrogate, at most U+10FFFF.
pub open spec fn is_scalar_value(v: nat) -> bool {
    v <= 0xD7FF || (0xE000 <= v && v <= 0x10FFFF)
}

/// The code point written at index `k` as `U+` and a run of four to six
/// hexadecimal digits, when that run spells a character's code point.
pub open spec fn code_point_at(s: Seq<char>, k: int) -> Option<nat> {
    if 0 <= k && k + 1 < s.len() && s[k] == 'U' && s[k + 1] == '+' {
        let e = hex_run_end(s, k + 2);
        if 4 <= e - (k + 2) <= 6 && is_scalar_value(hex_value(s, k + 2, e)) {
            Some(hex_value(s, k + 2, e))
        } else {
            None
        }
    } else {
        None
    }
}

/// The first code point written in `s` at index `k` or later.
pub open spec fn first_code_point(s: Seq<char>, k: int) -> Option<nat>
    decreases s.len() - k,
{
    if k < 0 || k >= s.len() {
        None
    } else if code_point_at(s, k) is Some {
        code_point_at(s, k)
    } else {
        first_code_point(s, k + 1)
    }
}

/// The code point of `c`.
pub open spec fn code_of(c: char) -> nat {
    c as u32 as nat
}

/// The character with code point `v`.
pub open spec fn char_with_code(v: nat) -> char {
    choose|c: char| #[trigger] code_of(c) == v
}

/// The character that a glyph description names, if it spells one out.
pub open spec fn glyph_of(d: Seq<char>) -> Option<char> {
    match first_code_point(d, 0) {
        Some(v) => Some(char_with_code(v)),
        None => None,
    }
}

/// Relies on `char::from_u32`: the character whose code point is `v`, or
/// `None` when `v` is a surrogate or above U+10FFFF.
#[verifier::external_body]
fn char_from_u32(v: u32) -> (r: Option<char>)
    ensures
        r is Some <==> is_scalar_value(v as nat),
        r is Some ==> r->0 as u32 == v,
{
    char::from_u32(v)
}

proof fn lemma_hex_run_end_bounds(s: Seq<char>, i: int)
    requires
        0 <= i <= s.len(),
    ensures
        i <= hex_run_end(s, i) <= s.len(),
    decreases s.len() - i,
{
    if i < s.len() && is_hex_digit(s[i]) {
        lemma_hex_run_end_bounds(s, i + 1);
    }
}

proof fn lemma_code_of_injective(c1: char, c2: char)
    requires
        code_of(c1) == code_of(c2),
    ensures
        c1 == c2,
{
}

/// Sixteen to the power `n`.
pub open spec fn pow16(n: nat) -> nat
    decreases n,
{
    if n == 0 {
        1
    } else {
        16 * pow16((n - 1) as nat)
    }
}

proof fn lemma_pow16_at_most_six(n: nat)
    requires
        n <= 6,
    ensures
        pow16(n) <= 16777216,
    decreases 6 - n,
{
    if n < 6 {
        lemma_pow16_at_most_six(n + 1);
    } else {
        reveal_with_fuel(pow16, 7);
    }
}

fn is_hex(c: char) -> (r: bool)
    ensures
        r == is_hex_digit(c),
{
    ('0' <= c && c <= '9') || ('A' <= c && c <= 'F') || ('a' <= c && c <= 'f')
}

fn hex_digit(c: char) -> (r: u32)
    requires
        is_hex_digit(c),
    ensures
        r == hex_digit_value(c),
        r < 16,
{
    if '0' <= c && c <= '9' {
        c as u32 - '0' as u32
    } else if 'A' <= c && c <= 'F' {
        c as u32 - 'A' as u32 + 10
    } else {
        c as u32 - 'a' as u32 + 10
    }
}

/// The character written at index `k` in the `U+XXXX` notation, if any.
fn char_at(s: &Vec<char>, k: usize) -> (r: Option<char>)
    requires
        k < s.len(),
    ensures
        r == (match code_point_at(s@, k as int) {
            Some(v) => Some(char_with_code(v)),
            None => None::<char>,
        }),
{
    if !(k + 1 < s.len() && s[k] == 'U' && s[k + 1] == '+') {
        return None;
    }
    let start = k + 2;
    let mut j = start;
    let mut v: u32 = 0;
    while j < s.len() && j - start < 6 && is_hex(s[j])
        invariant
            start <= j <= s.len(),
            j - start <= 6,
            hex_run_end(s@, j as int) == hex_run_end(s@, start as int),
            v == hex_value(s@, start as int, j as int),
            v < pow16((j - start) as nat),
        decreases 6 - (j - start),
    {
        proof {
            lemma_pow16_at_most_six((j + 1 - start) as nat);
        }
        v = v * 16 + hex_digit(s[j]);
        j += 1;
    }
    if j < s.len() && is_hex(s[j]) {
        // the run is longer than six digits
        proof {
            lemma_hex_run_end_bounds(s@, j + 1);
        }
        return None;
    }
    if j - start < 4 {
        return None;
    }
    let r = char_from_u32(v);
    proof {
        assert(hex_run_end(s@, j as int) == j);
        if r is Some {
            let c = r->0;
            assert(code_of(c) == v);
            assert(code_of(char_with_code(v as nat)) == v);
            lemma_code_of_injective(c, char_with_code(v as nat));
        }
    }
    r
}

/// The character that a glyph description spells out in the `U+XXXX`
/// notation: the first such code point in it, or `None` when it holds none.
pub fn resolve(description: &str) -> (r: Option<char>)
    ensures
        r == glyph_of(description@),
{
    let s = chars_of(description);
    let mut k: usize = 0;
    while k < s.len()
        invariant
            s@ == description@,
            first_code_point(s@, k as int) == first_code_point(s@, 0),
        decreases s.len() - k,
    {
        let c = char_at(&s, k);
        if c.is_some() {
            return c;
        }
        k += 1;
    }
    None
}

} // verus!
