//! Bracket-body scanning and escape decoding.
//!
//! Inside `[...]` a backslash escapes the next character verbatim and is
//! itself discarded; a backslash immediately before a line break removes
//! the break entirely. An un-escaped line break is a single space for the
//! whitespace-collapsing text kind and a hard break (`\n`) for the other;
//! runs of un-escaped whitespace collapse to one space only for the
//! whitespace-collapsing kind.

use vstd::prelude::*;

use crate::chars::{break_char, is_break_char, is_ws_char, ws_char};

verus! {

/// Position of the un-escaped `]` that closes a bracket body starting at
/// `pos`, or `None` when the input ends first.
pub open spec fn spec_body_end(s: Seq<char>, pos: int) -> Option<int>
    decreases s.len() - pos,
{
    if !(0 <= pos < s.len()) {
        None
    } else if s[pos] == ']' {
        Some(pos)
    } else if s[pos] == '\\' {
        if pos + 1 < s.len() {
            spec_body_end(s, pos + 2)
        } else {
            None
        }
    } else {
        spec_body_end(s, pos + 1)
    }
}

pub proof fn lemma_body_end_bounds(s: Seq<char>, pos: int)
    requires
        0 <= pos,
    ensures
        match spec_body_end(s, pos) {
            Some(e) => pos <= e < s.len() && s[e] == ']',
            None => true,
        },
    decreases s.len() - pos,
{
    if 0 <= pos < s.len() && s[pos] != ']' {
        if s[pos] == '\\' {
            if pos + 1 < s.len() {
                lemma_body_end_bounds(s, pos + 2);
            }
        } else {
            lemma_body_end_bounds(s, pos + 1);
        }
    }
}

/// Number of characters the line break at `i` spans: `\r\n` and `\n\r`
/// count as one two-character break.
pub open spec fn break_len(b: Seq<char>, i: int) -> int {
    if i + 1 < b.len() && ((b[i] == '\r' && b[i + 1] == '\n') || (b[i] == '\n' && b[i + 1]
        == '\r')) {
        2
    } else {
        1
    }
}

/// Decoding for the whitespace-collapsing text kind: escapes resolved,
/// escaped breaks removed, every run of un-escaped whitespace one space.
pub open spec fn decode_simple_text(b: Seq<char>, i: int) -> Seq<char>
    decreases b.len() - i,
{
    if !(0 <= i < b.len()) {
        Seq::empty()
    } else if b[i] == '\\' {
        if i + 1 >= b.len() {
            Seq::empty()
        } else if is_break_char(b[i + 1]) {
            decode_simple_text(b, i + 1 + break_len(b, i + 1))
        } else {
            seq![b[i + 1]] + decode_simple_text(b, i + 2)
        }
    } else if is_ws_char(b[i]) {
        if i + 1 < b.len() && is_ws_char(b[i + 1]) {
            decode_simple_text(b, i + 1)
        } else {
            seq![' '] + decode_simple_text(b, i + 1)
        }
    } else {
        seq![b[i]] + decode_simple_text(b, i + 1)
    }
}

/// Decoding for the line-break-preserving text kind: escapes resolved,
/// escaped breaks removed, every un-escaped break one hard `\n`.
pub open spec fn decode_text(b: Seq<char>, i: int) -> Seq<char>
    decreases b.len() - i,
{
    if !(0 <= i < b.len()) {
        Seq::empty()
    } else if b[i] == '\\' {
        if i + 1 >= b.len() {
            Seq::empty()
        } else if is_break_char(b[i + 1]) {
            decode_text(b, i + 1 + break_len(b, i + 1))
        } else {
            seq![b[i + 1]] + decode_text(b, i + 2)
        }
    } else if is_break_char(b[i]) {
        seq!['\n'] + decode_text(b, i + break_len(b, i))
    } else {
        seq![b[i]] + decode_text(b, i + 1)
    }
}

/// Position of the first un-escaped `:` in a bracket body, the separator
/// of a composed value.
pub open spec fn spec_sep_pos(b: Seq<char>, i: int) -> Option<int>
    decreases b.len() - i,
{
    if !(0 <= i < b.len()) {
        None
    } else if b[i] == ':' {
        Some(i)
    } else if b[i] == '\\' {
        if i + 1 < b.len() {
            spec_sep_pos(b, i + 2)
        } else {
            None
        }
    } else {
        spec_sep_pos(b, i + 1)
    }
}

pub proof fn lemma_sep_pos_bounds(b: Seq<char>, i: int)
    requires
        0 <= i,
    ensures
        match spec_sep_pos(b, i) {
            Some(d) => i <= d < b.len() && b[d] == ':',
            None => true,
        },
    decreases b.len() - i,
{
    if 0 <= i < b.len() && b[i] != ':' {
        if b[i] == '\\' {
            if i + 1 < b.len() {
                lemma_sep_pos_bounds(b, i + 2);
            }
        } else {
            lemma_sep_pos_bounds(b, i + 1);
        }
    }
}

pub fn find_body_end(src: &Vec<char>, pos: usize) -> (r: Option<usize>)
    requires
        pos <= src@.len(),
    ensures
        match r {
            Some(e) => spec_body_end(src@, pos as int) == Some(e as int),
            None => spec_body_end(src@, pos as int) is None,
        },
{
    let mut i = pos;
    loop
        invariant
            pos <= i,
            spec_body_end(src@, pos as int) == spec_body_end(src@, i as int),
        decreases src@.len() - i,
    {
        if i >= src.len() {
            return None;
        }
        let c = src[i];
        if c == ']' {
            return Some(i);
        } else if c == '\\' {
            if i + 1 < src.len() {
                i = i + 2;
            } else {
                return None;
            }
        } else {
            i = i + 1;
        }
    }
}

pub fn find_sep(body: &Vec<char>) -> (r: Option<usize>)
    ensures
        match r {
            Some(d) => spec_sep_pos(body@, 0) == Some(d as int),
            None => spec_sep_pos(body@, 0) is None,
        },
{
    let mut i: usize = 0;
    loop
        invariant
            spec_sep_pos(body@, 0) == spec_sep_pos(body@, i as int),
            0 <= i,
        decreases body@.len() - i,
    {
        if i >= body.len() {
            return None;
        }
        let c = body[i];
        if c == ':' {
            return Some(i);
        } else if c == '\\' {
            if i + 1 < body.len() {
                i = i + 2;
            } else {
                return None;
            }
        } else {
            i = i + 1;
        }
    }
}

fn break_width(body: &Vec<char>, i: usize) -> (w: usize)
    requires
        i < body@.len(),
    ensures
        w as int == break_len(body@, i as int),
        1 <= w <= 2,
        i + w <= body@.len(),
{
    let n = body.len();
    if i + 1 < n && ((body[i] == '\r' && body[i + 1] == '\n') || (body[i] == '\n' && body[i
        + 1] == '\r')) {
        2
    } else {
        1
    }
}

/// Decode a bracket body under the whitespace-collapsing rules.
pub fn decode_simple(body: &Vec<char>) -> (out: Vec<char>)
    ensures
        out@ == decode_simple_text(body@, 0),
{
    let mut out: Vec<char> = Vec::new();
    let mut i: usize = 0;
    loop
        invariant
            decode_simple_text(body@, 0) == out@ + decode_simple_text(body@, i as int),
            0 <= i,
        decreases body@.len() - i,
    {
        if i >= body.len() {
            proof {
                assert(out@ + decode_simple_text(body@, i as int) =~= out@);
            }
            return out;
        }
        let c = body[i];
        if c == '\\' {
            if i + 1 >= body.len() {
                proof {
                    assert(out@ + decode_simple_text(body@, i as int) =~= out@);
                }
                return out;
            }
            let d = body[i + 1];
            if break_char(d) {
                let w = break_width(body, i + 1);
                i = i + 1 + w;
            } else {
                let ghost pre = out@;
                out.push(d);
                proof {
                    assert(pre + decode_simple_text(body@, i as int) =~= out@
                        + decode_simple_text(body@, i + 2));
                }
                i = i + 2;
            }
        } else if ws_char(c) {
            if i + 1 < body.len() && ws_char(body[i + 1]) {
                i = i + 1;
            } else {
                let ghost pre = out@;
                out.push(' ');
                proof {
                    assert(pre + decode_simple_text(body@, i as int) =~= out@
                        + decode_simple_text(body@, i + 1));
                }
                i = i + 1;
            }
        } else {
            let ghost pre = out@;
            out.push(c);
            proof {
                assert(pre + decode_simple_text(body@, i as int) =~= out@ + decode_simple_text(
                    body@,
                    i + 1,
                ));
            }
            i = i + 1;
        }
    }
}

/// Decode a bracket body under the line-break-preserving rules.
pub fn decode_hard(body: &Vec<char>) -> (out: Vec<char>)
    ensures
        out@ == decode_text(body@, 0),
{
    let mut out: Vec<char> = Vec::new();
    let mut i: usize = 0;
    loop
        invariant
            decode_text(body@, 0) == out@ + decode_text(body@, i as int),
            0 <= i,
        decreases body@.len() - i,
    {
        if i >= body.len() {
            proof {
                assert(out@ + decode_text(body@, i as int) =~= out@);
            }
            return out;
        }
        let c = body[i];
        if c == '\\' {
            if i + 1 >= body.len() {
                proof {
                    assert(out@ + decode_text(body@, i as int) =~= out@);
                }
                return out;
            }
            let d = body[i + 1];
            if break_char(d) {
                let w = break_width(body, i + 1);
                i = i + 1 + w;
            } else {
                let ghost pre = out@;
                out.push(d);
                proof {
                    assert(pre + decode_text(body@, i as int) =~= out@ + decode_text(
                        body@,
                        i + 2,
                    ));
                }
                i = i + 2;
            }
        } else if break_char(c) {
            let w = break_width(body, i);
            let ghost pre = out@;
            out.push('\n');
            proof {
                assert(pre + decode_text(body@, i as int) =~= out@ + decode_text(
                    body@,
                    i + w,
                ));
            }
            i = i + w;
        } else {
            let ghost pre = out@;
            out.push(c);
            proof {
                assert(pre + decode_text(body@, i as int) =~= out@ + decode_text(body@, i + 1));
            }
            i = i + 1;
        }
    }
}


// ---------------------------------------------------------------------
// Laws of the decoding rules.
// ---------------------------------------------------------------------

/// A backslash escapes the next character verbatim (here, any character
/// that is not a line break), under both text kinds, and is itself
/// discarded.
pub proof fn lemma_escape_verbatim(c: char)
    requires
        !is_break_char(c),
    ensures
        decode_simple_text(seq!['\\', c], 0) == seq![c],
        decode_text(seq!['\\', c], 0) == seq![c],
{
    let b = seq!['\\', c];
    assert(decode_simple_text(b, 2) =~= Seq::<char>::empty());
    assert(decode_text(b, 2) =~= Seq::<char>::empty());
    assert(decode_simple_text(b, 0) =~= seq![c]);
    assert(decode_text(b, 0) =~= seq![c]);
}

/// An un-escaped line break inside a whitespace-collapsing value decodes
/// to a single space.
pub proof fn lemma_break_is_space(c: char)
    requires
        is_break_char(c),
    ensures
        decode_simple_text(seq![c], 0) == seq![' '],
{
    let b = seq![c];
    assert(decode_simple_text(b, 1) =~= Seq::<char>::empty());
    assert(decode_simple_text(b, 0) =~= seq![' ']);
}

/// A backslash immediately before a line break removes the break
/// entirely, under both text kinds.
pub proof fn lemma_escaped_break_removed(c: char)
    requires
        is_break_char(c),
    ensures
        decode_simple_text(seq!['\\', c], 0) == Seq::<char>::empty(),
        decode_text(seq!['\\', c], 0) == Seq::<char>::empty(),
{
    let b = seq!['\\', c];
    assert(break_len(b, 1) == 1);
    assert(decode_simple_text(b, 2) =~= Seq::<char>::empty());
    assert(decode_text(b, 2) =~= Seq::<char>::empty());
    assert(decode_simple_text(b, 0) =~= Seq::<char>::empty());
    assert(decode_text(b, 0) =~= Seq::<char>::empty());
}

} // verus!

