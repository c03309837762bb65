//! Character classes of the format, cursor helpers shared by every parsing
//! layer, and conversions between `&str`, `Vec<char>` and `String`.

use vstd::prelude::*;

verus! {

/// Whitespace may appear between values, properties, nodes and trees.
pub open spec fn is_ws_char(c: char) -> bool {
    c == ' ' || c == '\t' || c == '\n' || c == '\r'
}

/// Line terminators get special treatment inside bracketed text values.
pub open spec fn is_break_char(c: char) -> bool {
    c == '\n' || c == '\r'
}

pub open spec fn is_upper_char(c: char) -> bool {
    'A' as u32 <= c as u32 && c as u32 <= 'Z' as u32
}

pub open spec fn is_digit_char(c: char) -> bool {
    '0' as u32 <= c as u32 && c as u32 <= '9' as u32
}

pub open spec fn digit_value(c: char) -> int {
    c as u32 - '0' as u32
}

/// Clamp of a successor position: used in the definitions of the recursive
/// parsing functions so that every recursive call stands at a position
/// strictly past `prev` and no further than `len`. The progress lemmas show
/// that, at every place the definitions use it, the clamp changes nothing.
pub open spec fn step_pos(prev: int, next: int, len: int) -> int {
    if next < prev + 1 {
        prev + 1
    } else if next > len {
        len
    } else {
        next
    }
}

/// Position of the first non-whitespace character at or after `pos`.
pub open spec fn spec_skip_ws(s: Seq<char>, pos: int) -> int
    decreases s.len() - pos,
{
    if 0 <= pos < s.len() && is_ws_char(s[pos]) {
        spec_skip_ws(s, pos + 1)
    } else {
        pos
    }
}

pub proof fn lemma_skip_ws_bounds(s: Seq<char>, pos: int)
    requires
        0 <= pos <= s.len(),
    ensures
        pos <= spec_skip_ws(s, pos) <= s.len(),
        spec_skip_ws(s, pos) < s.len() ==> !is_ws_char(s[spec_skip_ws(s, pos)]),
    decreases s.len() - pos,
{
    if pos < s.len() && is_ws_char(s[pos]) {
        lemma_skip_ws_bounds(s, pos + 1);
    }
}

/// End of the run of uppercase letters starting at `pos`.
pub open spec fn spec_upper_end(s: Seq<char>, pos: int) -> int
    decreases s.len() - pos,
{
    if 0 <= pos < s.len() && is_upper_char(s[pos]) {
        spec_upper_end(s, pos + 1)
    } else {
        pos
    }
}

pub proof fn lemma_upper_end_bounds(s: Seq<char>, pos: int)
    requires
        0 <= pos <= s.len(),
    ensures
        pos <= spec_upper_end(s, pos) <= s.len(),
    decreases s.len() - pos,
{
    if pos < s.len() && is_upper_char(s[pos]) {
        lemma_upper_end_bounds(s, pos + 1);
    }
}

pub fn ws_char(c: char) -> (b: bool)
    ensures
        b == is_ws_char(c),
{
    c == ' ' || c == '\t' || c == '\n' || c == '\r'
}

pub fn break_char(c: char) -> (b: bool)
    ensures
        b == is_break_char(c),
{
    c == '\n' || c == '\r'
}

pub fn upper_char(c: char) -> (b: bool)
    ensures
        b == is_upper_char(c),
{
    'A' as u32 <= c as u32 && c as u32 <= 'Z' as u32
}

pub fn digit_char(c: char) -> (b: bool)
    ensures
        b == is_digit_char(c),
{
    '0' as u32 <= c as u32 && c as u32 <= '9' as u32
}

pub fn skip_ws(src: &Vec<char>, pos: usize) -> (r: usize)
    requires
        pos <= src@.len(),
    ensures
        r as int == spec_skip_ws(src@, pos as int),
        pos <= r <= src@.len(),
{
    let mut i = pos;
    while i < src.len() && ws_char(src[i])
        invariant
            pos <= i <= src@.len(),
            spec_skip_ws(src@, pos as int) == spec_skip_ws(src@, i as int),
        decreases src@.len() - i,
    {
        i = i + 1;
    }
    i
}

pub fn upper_end(src: &Vec<char>, pos: usize) -> (r: usize)
    requires
        pos <= src@.len(),
    ensures
        r as int == spec_upper_end(src@, pos as int),
        pos <= r <= src@.len(),
{
    let mut i = pos;
    while i < src.len() && upper_char(src[i])
        invariant
            pos <= i <= src@.len(),
            spec_upper_end(src@, pos as int) == spec_upper_end(src@, i as int),
        decreases src@.len() - i,
    {
        i = i + 1;
    }
    i
}

/// Copy of the characters in `[a, b)` of `src`.
pub fn copy_range(src: &Vec<char>, a: usize, b: usize) -> (v: Vec<char>)
    requires
        a <= b <= src@.len(),
    ensures
        v@ == src@.subrange(a as int, b as int),
{
    let mut v: Vec<char> = Vec::new();
    let mut i = a;
    while i < b
        invariant
            a <= i <= b <= src@.len(),
            v@ == src@.subrange(a as int, i as int),
        decreases b - i,
    {
        let c = src[i];
        v.push(c);
        proof {
            assert(v@ =~= src@.subrange(a as int, i + 1 as int));
        }
        i = i + 1;
    }
    v
}

/// Relies on `String::push`: it appends the given character to the string.
#[verifier::external_body]
fn push_char(s: &mut String, c: char)
    ensures
        final(s)@ == old(s)@.push(c),
{
    s.push(c);
}

pub fn string_of_chars(v: &Vec<char>) -> (s: String)
    ensures
        s@ == v@,
{
    let mut s = String::new();
    let mut i: usize = 0;
    while i < v.len()
        invariant
            i <= v@.len(),
            s@ == v@.subrange(0, i as int),
        decreases v@.len() - i,
    {
        push_char(&mut s, v[i]);
        proof {
            assert(s@ =~= v@.subrange(0, i + 1 as int));
        }
        i = i + 1;
    }
    proof {
        assert(s@ =~= v@);
    }
    s
}

pub fn vec_of_str(s: &str) -> (v: Vec<char>)
    ensures
        v@ == s@,
{
    let n = s.unicode_len();
    let mut v: Vec<char> = Vec::new();
    let mut i: usize = 0;
    while i < n
        invariant
            i <= n,
            n == s@.len(),
            v@ == s@.subrange(0, i as int),
        decreases n - i,
    {
        let c = s.get_char(i);
        v.push(c);
        proof {
            assert(v@ =~= s@.subrange(0, i + 1 as int));
        }
        i = i + 1;
    }
    proof {
        assert(v@ =~= s@);
    }
    v
}

} // verus!
