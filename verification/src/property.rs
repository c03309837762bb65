//! Typed property values: the closed variant set, the identifier catalog
//! that drives dispatch, construction of a value from decoded bracket
//! text, and per-variant validation.

use vstd::prelude::*;
use vstd::string::StringExecFns;

use crate::chars::{
    copy_range, digit_char, digit_value, is_digit_char, string_of_chars, upper_end, vec_of_str,
};
use crate::errors::{ErrV, SgfErrorKind, SgfParseError, SgfWarning, WarnV, warns_view};
use crate::grammar::{spec_parse_property, spec_parse_values, PropValueV, PropertyV, SimpleValueV};
use crate::text::{
    decode_hard, decode_simple, decode_simple_text, decode_text, find_body_end, find_sep,
    lemma_body_end_bounds, lemma_sep_pos_bounds, spec_sep_pos,
};

verus! {

/// The two stone colors a `Color` value can name.
#[derive(Clone, Copy, Debug, PartialEq, Eq, Structural)]
pub enum Color {
    Black,
    White,
}

/// The shape of one bracketed value, as the catalog declares it for an
/// identifier.
#[derive(Clone, Copy, Debug, PartialEq, Eq, Structural)]
pub enum SimpleKind {
    /// The identifier is value-less: it takes one empty bracket pair.
    NoValue,
    /// A whole number that must lie in the closed range carried here.
    NumberRange(u32, u32),
    /// An optionally signed decimal number, kept as text.
    RealNumber,
    /// `1` (normal) or `2` (emphasized).
    DoubleFlag,
    /// `B` or `W`.
    ColorToken,
    /// Whitespace-collapsed escaped text.
    SimpleTextKind,
    /// Line-break-preserving escaped text.
    TextKind,
    /// Game-specific coordinate text, kept opaque.
    PointKind,
    /// Game-specific move text, kept opaque.
    MoveKind,
    /// Game-specific stone text, kept opaque.
    StoneKind,
}

/// A catalog entry: either one simple value, or two joined by `:`.
#[derive(Clone, Copy, Debug, PartialEq, Eq, Structural)]
pub enum ValueKind {
    Single(SimpleKind),
    Pair(SimpleKind, SimpleKind),
}

/// One typed value carried by a property.
#[derive(Debug, PartialEq, Eq)]
pub enum PropertyValue {
    /// The empty value of a value-less identifier.
    Empty,
    /// A number together with the inclusive range its identifier allows.
    Number(u32, u32, u32),
    /// Decimal text, validated by [`PropertyValue::validate`].
    Real(String),
    /// `false` is normal, `true` is emphasized.
    Double(bool),
    Color(Color),
    /// Whitespace-collapsed escaped text.
    SimpleText(String),
    /// Line-break-preserving escaped text.
    Text(String),
    Point(String),
    Move(String),
    Stone(String),
    /// Two sub-values joined by the `:` separator.
    Compose(Box<PropertyValue>, Box<PropertyValue>),
}

/// Model of a value that is not composed. A composed value never nests,
/// so a `Compose` has no simple model of its own and maps to `Empty`.
pub open spec fn simple_value_view(v: PropertyValue) -> SimpleValueV {
    match v {
        PropertyValue::Empty => SimpleValueV::Empty,
        PropertyValue::Number(x, mn, mx) => SimpleValueV::Number(x as int, mn as int, mx as int),
        PropertyValue::Real(t) => SimpleValueV::Real(t@),
        PropertyValue::Double(b) => SimpleValueV::Double(b),
        PropertyValue::Color(c) => SimpleValueV::Color(c),
        PropertyValue::SimpleText(t) => SimpleValueV::SimpleText(t@),
        PropertyValue::Text(t) => SimpleValueV::Text(t@),
        PropertyValue::Point(t) => SimpleValueV::Point(t@),
        PropertyValue::Move(t) => SimpleValueV::Move(t@),
        PropertyValue::Stone(t) => SimpleValueV::Stone(t@),
        PropertyValue::Compose(_, _) => SimpleValueV::Empty,
    }
}

impl View for PropertyValue {
    type V = PropValueV;

    open spec fn view(&self) -> PropValueV {
        match *self {
            PropertyValue::Compose(a, b) => PropValueV::Compose(
                simple_value_view(*a),
                simple_value_view(*b),
            ),
            _ => PropValueV::Single(simple_value_view(*self)),
        }
    }
}

/// A property: its identifier and the ordered, non-empty values it
/// carries.
#[derive(Debug, PartialEq, Eq)]
pub struct Property {
    pub id: String,
    pub values: Vec<PropertyValue>,
}

pub open spec fn values_view(s: Seq<PropertyValue>) -> Seq<PropValueV> {
    s.map_values(|v: PropertyValue| v@)
}

impl View for Property {
    type V = PropertyV;

    open spec fn view(&self) -> PropertyV {
        PropertyV { id: self.id@, values: values_view(self.values@) }
    }
}

// ---------------------------------------------------------------------
// Number and decimal text.
// ---------------------------------------------------------------------

pub open spec fn all_digits(b: Seq<char>) -> bool {
    forall|i: int| 0 <= i < b.len() ==> is_digit_char(b[i])
}

/// Value of a digit run, most significant digit first.
pub open spec fn digits_val(b: Seq<char>) -> int
    decreases b.len(),
{
    if b.len() == 0 {
        0
    } else {
        digits_val(b.subrange(0, b.len() - 1)) * 10 + digit_value(b[b.len() - 1])
    }
}

pub open spec fn has_sign(b: Seq<char>) -> bool {
    b.len() > 0 && (b[0] == '+' || b[0] == '-')
}

pub open spec fn num_digits_part(b: Seq<char>) -> Seq<char> {
    if has_sign(b) {
        b.subrange(1, b.len() as int)
    } else {
        b
    }
}

/// An optionally signed run of at least one digit.
pub open spec fn is_number_text(b: Seq<char>) -> bool {
    num_digits_part(b).len() > 0 && all_digits(num_digits_part(b))
}

/// Number text for a whole-number value: an optional `+` and a digit
/// run. A minus sign is refused; the catalog ranges are unsigned.
pub open spec fn is_u32_text(b: Seq<char>) -> bool {
    is_number_text(b) && !(b.len() > 0 && b[0] == '-')
}

pub open spec fn number_val(b: Seq<char>) -> int {
    if b.len() > 0 && b[0] == '-' {
        -digits_val(num_digits_part(b))
    } else {
        digits_val(num_digits_part(b))
    }
}

/// Position of the first `.` at or after `i`.
pub open spec fn spec_dot_pos(b: Seq<char>, i: int) -> Option<int>
    decreases b.len() - i,
{
    if !(0 <= i < b.len()) {
        None
    } else if b[i] == '.' {
        Some(i)
    } else {
        spec_dot_pos(b, i + 1)
    }
}

/// An optionally signed decimal: digits, then optionally a point and more
/// digits, with at least one digit on each side of the point.
pub open spec fn is_decimal_text(b: Seq<char>) -> bool {
    let m = num_digits_part(b);
    match spec_dot_pos(m, 0) {
        None => m.len() > 0 && all_digits(m),
        Some(d) => 1 <= d && d + 1 < m.len() && all_digits(m.subrange(0, d)) && all_digits(
            m.subrange(d + 1, m.len() as int),
        ),
    }
}

// ---------------------------------------------------------------------
// The identifier catalog.
// ---------------------------------------------------------------------

/// The process-wide, read-only identifier catalog: which value kind each
/// known identifier takes. A miss is not fatal; the value is kept as
/// opaque text and a warning is recorded.
pub open spec fn catalog_kind_spec(id: Seq<char>) -> Option<ValueKind> {
    if id.len() == 1 && id[0] == 'C' {
        Some(ValueKind::Single(SimpleKind::TextKind))
    } else if id.len() == 1 && (id[0] == 'B' || id[0] == 'W') {
        Some(ValueKind::Single(SimpleKind::MoveKind))
    } else if id.len() == 2 && id[0] == 'F' && id[1] == 'F' {
        Some(ValueKind::Single(SimpleKind::NumberRange(1, 4)))
    } else if id.len() == 2 && id[0] == 'G' && id[1] == 'M' {
        Some(ValueKind::Single(SimpleKind::NumberRange(1, 16)))
    } else if id.len() == 2 && id[0] == 'S' && id[1] == 'Z' {
        Some(ValueKind::Single(SimpleKind::NumberRange(1, 52)))
    } else if id.len() == 2 && (id[0] == 'P' && (id[1] == 'B' || id[1] == 'W')) {
        Some(ValueKind::Single(SimpleKind::SimpleTextKind))
    } else if id.len() == 2 && id[0] == 'P' && id[1] == 'L' {
        Some(ValueKind::Single(SimpleKind::ColorToken))
    } else if id.len() == 2 && (id[0] == 'G' && (id[1] == 'B' || id[1] == 'W')) {
        Some(ValueKind::Single(SimpleKind::DoubleFlag))
    } else if id.len() == 2 && id[0] == 'K' && id[1] == 'M' {
        Some(ValueKind::Single(SimpleKind::RealNumber))
    } else if id.len() == 2 && id[0] == 'K' && id[1] == 'O' {
        Some(ValueKind::Single(SimpleKind::NoValue))
    } else if id.len() == 2 && (id[0] == 'A' && (id[1] == 'B' || id[1] == 'W')) {
        Some(ValueKind::Single(SimpleKind::StoneKind))
    } else if id.len() == 2 && id[0] == 'A' && id[1] == 'E' {
        Some(ValueKind::Single(SimpleKind::PointKind))
    } else if id.len() == 2 && id[0] == 'A' && id[1] == 'P' {
        Some(ValueKind::Pair(SimpleKind::SimpleTextKind, SimpleKind::SimpleTextKind))
    } else {
        None
    }
}

pub fn catalog_lookup(id: &Vec<char>) -> (r: Option<ValueKind>)
    ensures
        r == catalog_kind_spec(id@),
{
    if id.len() == 1 {
        let a = id[0];
        if a == 'C' {
            Some(ValueKind::Single(SimpleKind::TextKind))
        } else if a == 'B' || a == 'W' {
            Some(ValueKind::Single(SimpleKind::MoveKind))
        } else {
            None
        }
    } else if id.len() == 2 {
        let a = id[0];
        let b = id[1];
        if a == 'F' && b == 'F' {
            Some(ValueKind::Single(SimpleKind::NumberRange(1, 4)))
        } else if a == 'G' && b == 'M' {
            Some(ValueKind::Single(SimpleKind::NumberRange(1, 16)))
        } else if a == 'S' && b == 'Z' {
            Some(ValueKind::Single(SimpleKind::NumberRange(1, 52)))
        } else if a == 'P' && (b == 'B' || b == 'W') {
            Some(ValueKind::Single(SimpleKind::SimpleTextKind))
        } else if a == 'P' && b == 'L' {
            Some(ValueKind::Single(SimpleKind::ColorToken))
        } else if a == 'G' && (b == 'B' || b == 'W') {
            Some(ValueKind::Single(SimpleKind::DoubleFlag))
        } else if a == 'K' && b == 'M' {
            Some(ValueKind::Single(SimpleKind::RealNumber))
        } else if a == 'K' && b == 'O' {
            Some(ValueKind::Single(SimpleKind::NoValue))
        } else if a == 'A' && (b == 'B' || b == 'W') {
            Some(ValueKind::Single(SimpleKind::StoneKind))
        } else if a == 'A' && b == 'E' {
            Some(ValueKind::Single(SimpleKind::PointKind))
        } else if a == 'A' && b == 'P' {
            Some(ValueKind::Pair(SimpleKind::SimpleTextKind, SimpleKind::SimpleTextKind))
        } else {
            None
        }
    } else {
        None
    }
}

// ---------------------------------------------------------------------
// Construction and validation.
// ---------------------------------------------------------------------

/// What one simple value constructed from the raw bracket text `raw` is,
/// or `None` when the text cannot make a value of this kind.
pub open spec fn construct_simple(k: SimpleKind, raw: Seq<char>) -> Option<SimpleValueV> {
    match k {
        SimpleKind::NoValue => if raw.len() == 0 {
            Some(SimpleValueV::Empty)
        } else {
            None
        },
        SimpleKind::NumberRange(mn, mx) => if is_u32_text(raw) && number_val(raw) <= u32::MAX {
            Some(SimpleValueV::Number(number_val(raw), mn as int, mx as int))
        } else {
            None
        },
        SimpleKind::RealNumber => Some(SimpleValueV::Real(raw)),
        SimpleKind::DoubleFlag => if raw == seq!['1'] {
            Some(SimpleValueV::Double(false))
        } else if raw == seq!['2'] {
            Some(SimpleValueV::Double(true))
        } else {
            None
        },
        SimpleKind::ColorToken => if raw == seq!['B'] {
            Some(SimpleValueV::Color(Color::Black))
        } else if raw == seq!['W'] {
            Some(SimpleValueV::Color(Color::White))
        } else {
            None
        },
        SimpleKind::SimpleTextKind => Some(SimpleValueV::SimpleText(decode_simple_text(raw, 0))),
        SimpleKind::TextKind => Some(SimpleValueV::Text(decode_text(raw, 0))),
        SimpleKind::PointKind => Some(SimpleValueV::Point(decode_simple_text(raw, 0))),
        SimpleKind::MoveKind => Some(SimpleValueV::Move(decode_simple_text(raw, 0))),
        SimpleKind::StoneKind => Some(SimpleValueV::Stone(decode_simple_text(raw, 0))),
    }
}

/// What one value of the given kind constructed from the raw bracket text
/// is; a composed kind splits at the first un-escaped `:`.
pub open spec fn construct_value(k: ValueKind, raw: Seq<char>) -> Option<PropValueV> {
    match k {
        ValueKind::Single(sk) => match construct_simple(sk, raw) {
            Some(v) => Some(PropValueV::Single(v)),
            None => None,
        },
        ValueKind::Pair(k1, k2) => match spec_sep_pos(raw, 0) {
            None => None,
            Some(d) => match (construct_simple(k1, raw.subrange(0, d)), construct_simple(
                k2,
                raw.subrange(d + 1, raw.len() as int),
            )) {
                (Some(a), Some(b)) => Some(PropValueV::Compose(a, b)),
                _ => None,
            },
        },
    }
}

/// What the value of identifier `id` built from raw bracket text `raw`
/// is: catalog dispatch, with a catalog miss kept as opaque text.
pub open spec fn spec_make_value(id: Seq<char>, raw: Seq<char>) -> Option<PropValueV> {
    match catalog_kind_spec(id) {
        None => Some(PropValueV::Single(SimpleValueV::Text(decode_text(raw, 0)))),
        Some(k) => construct_value(k, raw),
    }
}

/// Domain check of one simple value: a number must lie in its range and a
/// real must be decimal text; every other simple value is valid as built.
pub open spec fn valid_simple(v: SimpleValueV) -> bool {
    match v {
        SimpleValueV::Number(x, mn, mx) => mn <= x <= mx,
        SimpleValueV::Real(t) => is_decimal_text(t),
        _ => true,
    }
}

/// Domain check of a value: a composed value is valid when both halves
/// are.
pub open spec fn valid_value(v: PropValueV) -> bool {
    match v {
        PropValueV::Single(s) => valid_simple(s),
        PropValueV::Compose(a, b) => valid_simple(a) && valid_simple(b),
    }
}


// ---------------------------------------------------------------------
// Executable construction and validation.
// ---------------------------------------------------------------------

pub proof fn lemma_digits_val_nonneg(m: Seq<char>)
    requires
        all_digits(m),
    ensures
        digits_val(m) >= 0,
    decreases m.len(),
{
    if m.len() > 0 {
        let pre = m.subrange(0, m.len() - 1);
        assert(all_digits(pre));
        lemma_digits_val_nonneg(pre);
    }
}

/// A digit run is worth at least any of its prefixes.
pub proof fn lemma_digits_prefix_le(m: Seq<char>, j: int)
    requires
        all_digits(m),
        0 <= j <= m.len(),
    ensures
        digits_val(m.subrange(0, j)) <= digits_val(m),
    decreases m.len() - j,
{
    if j == m.len() {
        assert(m.subrange(0, j) =~= m);
    } else {
        let a = m.subrange(0, j);
        let b = m.subrange(0, j + 1);
        assert(b.subrange(0, j) =~= a);
        assert(all_digits(a));
        lemma_digits_val_nonneg(a);
        assert(b[j] == m[j]);
        assert(is_digit_char(b[j]));
        assert(digits_val(b) == digits_val(a) * 10 + digit_value(b[j]));
        assert(digit_value(b[j]) >= 0);
        lemma_digits_prefix_le(m, j + 1);
    }
}

/// Parse an optionally signed digit run as a `u32`: `Some` exactly when
/// the text is a number whose value fits.
fn parse_u32_text(raw: &Vec<char>) -> (r: Option<u32>)
    ensures
        ({
            let ok = is_u32_text(raw@) && number_val(raw@) <= u32::MAX;
            match r {
                Some(x) => ok && x as int == number_val(raw@),
                None => !ok,
            }
        }),
{
    let n = raw.len();
    if n == 0 {
        return None;
    }
    let c0 = raw[0];
    if c0 == '-' {
        return None;
    }
    let start: usize = if c0 == '+' {
        1
    } else {
        0
    };
    if start >= n {
        proof {
            assert(num_digits_part(raw@).len() == 0);
        }
        return None;
    }
    let ghost m = num_digits_part(raw@);
    proof {
        assert(m =~= raw@.subrange(start as int, n as int));
    }
    let mut acc: u64 = 0;
    let mut j = start;
    while j < n
        invariant
            start <= j <= n,
            n == raw@.len(),
            start < n,
            m == num_digits_part(raw@),
            raw@[0] != '-',
            m == raw@.subrange(start as int, n as int),
            all_digits(m.subrange(0, j - start)),
            acc as int == digits_val(m.subrange(0, j - start)),
            acc <= u32::MAX,
        decreases n - j,
    {
        let c = raw[j];
        if !digit_char(c) {
            proof {
                assert(m[j - start] == raw@[j as int]);
                assert(!all_digits(m));
                assert(!is_number_text(raw@));
            }
            return None;
        }
        let d: u64 = (c as u32 - '0' as u32) as u64;
        let acc2: u64 = acc * 10 + d;
        proof {
            let k = j - start;
            let pfx = m.subrange(0, k + 1);
            assert(pfx.subrange(0, k) =~= m.subrange(0, k));
            assert(pfx[k] == raw@[j as int]);
            assert(digits_val(pfx) == digits_val(m.subrange(0, k)) * 10 + digit_value(pfx[k]));
            assert(d as int == digit_value(pfx[k]));
            assert(all_digits(pfx));
        }
        if acc2 > u32::MAX as u64 {
            proof {
                let k = j - start;
                let pfx = m.subrange(0, k + 1);
                if all_digits(m) {
                    lemma_digits_prefix_le(m, k + 1);
                    assert(digits_val(m) >= digits_val(pfx) > u32::MAX);
                    assert(number_val(raw@) == digits_val(m));
                } else {
                    assert(!is_number_text(raw@));
                }
            }
            return None;
        }
        acc = acc2;
        j = j + 1;
    }
    proof {
        assert(m.subrange(0, n - start) =~= m);
        assert(is_u32_text(raw@));
        lemma_digits_val_nonneg(m);
        assert(number_val(raw@) == digits_val(m));
    }
    Some(acc as u32)
}

/// Whether every character in `[a, b)` of `v` is a digit.
fn all_digits_range(v: &Vec<char>, a: usize, b: usize) -> (r: bool)
    requires
        a <= b <= v@.len(),
    ensures
        r == all_digits(v@.subrange(a as int, b as int)),
{
    let ghost sub = v@.subrange(a as int, b as int);
    let mut j = a;
    while j < b
        invariant
            a <= j <= b <= v@.len(),
            sub == v@.subrange(a as int, b as int),
            forall|i: int| a <= i < j ==> is_digit_char(v@[i]),
        decreases b - j,
    {
        if !digit_char(v[j]) {
            proof {
                assert(sub[j - a] == v@[j as int]);
                assert(!all_digits(sub));
            }
            return false;
        }
        j = j + 1;
    }
    proof {
        assert forall|i: int| 0 <= i < sub.len() implies is_digit_char(sub[i]) by {
            assert(sub[i] == v@[i + a]);
        }
    }
    true
}

fn find_dot(v: &Vec<char>) -> (r: Option<usize>)
    ensures
        match r {
            Some(d) => spec_dot_pos(v@, 0) == Some(d as int) && d < v@.len(),
            None => spec_dot_pos(v@, 0) is None,
        },
{
    let mut i: usize = 0;
    loop
        invariant
            spec_dot_pos(v@, 0) == spec_dot_pos(v@, i as int),
            0 <= i,
        decreases v@.len() - i,
    {
        if i >= v.len() {
            return None;
        }
        if v[i] == '.' {
            return Some(i);
        }
        i = i + 1;
    }
}

/// Whether the characters form optionally signed decimal text.
fn decimal_chars(raw: &Vec<char>) -> (r: bool)
    ensures
        r == is_decimal_text(raw@),
{
    let n = raw.len();
    if n == 0 {
        return false;
    }
    let c0 = raw[0];
    let start: usize = if c0 == '-' || c0 == '+' {
        1
    } else {
        0
    };
    let mm = copy_range(raw, start, n);
    proof {
        assert(mm@ =~= num_digits_part(raw@));
    }
    let dot = find_dot(&mm);
    match dot {
        None => {
            if mm.len() == 0 {
                return false;
            }
            let ad = all_digits_range(&mm, 0, mm.len());
            proof {
                assert(mm@.subrange(0, mm@.len() as int) =~= mm@);
            }
            ad
        },
        Some(d) => {
            if d < 1 || d + 1 >= mm.len() {
                return false;
            }
            let left = all_digits_range(&mm, 0, d);
            if !left {
                return false;
            }
            all_digits_range(&mm, d + 1, mm.len())
        },
    }
}

/// Build one simple value of kind `k` from the raw bracket text.
fn make_simple(k: SimpleKind, body: &Vec<char>) -> (r: Option<PropertyValue>)
    ensures
        ({
            let c = construct_simple(k, body@);
            match r {
                Some(v) => c == Some(simple_value_view(v)) && !(v is Compose),
                None => c is None,
            }
        }),
{
    match k {
        SimpleKind::NoValue => {
            if body.len() == 0 {
                Some(PropertyValue::Empty)
            } else {
                None
            }
        },
        SimpleKind::NumberRange(mn, mx) => {
            match parse_u32_text(body) {
                Some(x) => Some(PropertyValue::Number(x, mn, mx)),
                None => None,
            }
        },
        SimpleKind::RealNumber => Some(PropertyValue::Real(string_of_chars(body))),
        SimpleKind::DoubleFlag => {
            if body.len() == 1 && body[0] == '1' {
                proof {
                    assert(body@ =~= seq!['1']);
                }
                Some(PropertyValue::Double(false))
            } else if body.len() == 1 && body[0] == '2' {
                proof {
                    assert(body@ =~= seq!['2']);
                }
                Some(PropertyValue::Double(true))
            } else {
                proof {
                    if body@ == seq!['1'] {
                        assert(body@.len() == 1 && body@[0] == '1');
                    }
                    if body@ == seq!['2'] {
                        assert(body@.len() == 1 && body@[0] == '2');
                    }
                }
                None
            }
        },
        SimpleKind::ColorToken => {
            if body.len() == 1 && body[0] == 'B' {
                proof {
                    assert(body@ =~= seq!['B']);
                }
                Some(PropertyValue::Color(Color::Black))
            } else if body.len() == 1 && body[0] == 'W' {
                proof {
                    assert(body@ =~= seq!['W']);
                }
                Some(PropertyValue::Color(Color::White))
            } else {
                proof {
                    if body@ == seq!['B'] {
                        assert(body@.len() == 1 && body@[0] == 'B');
                    }
                    if body@ == seq!['W'] {
                        assert(body@.len() == 1 && body@[0] == 'W');
                    }
                }
                None
            }
        },
        SimpleKind::SimpleTextKind => Some(
            PropertyValue::SimpleText(string_of_chars(&decode_simple(body))),
        ),
        SimpleKind::TextKind => Some(PropertyValue::Text(string_of_chars(&decode_hard(body)))),
        SimpleKind::PointKind => Some(PropertyValue::Point(string_of_chars(&decode_simple(body)))),
        SimpleKind::MoveKind => Some(PropertyValue::Move(string_of_chars(&decode_simple(body)))),
        SimpleKind::StoneKind => Some(PropertyValue::Stone(string_of_chars(&decode_simple(body)))),
    }
}

/// Build one value of kind `kind` from the raw bracket text.
pub(crate) fn make_value(kind: ValueKind, body: &Vec<char>) -> (r: Option<PropertyValue>)
    ensures
        match r {
            Some(v) => construct_value(kind, body@) == Some(v@),
            None => construct_value(kind, body@) is None,
        },
{
    match kind {
        ValueKind::Single(sk) => {
            match make_simple(sk, body) {
                Some(v) => {
                    proof {
                        assert(v@ == PropValueV::Single(simple_value_view(v)));
                    }
                    Some(v)
                },
                None => None,
            }
        },
        ValueKind::Pair(k1, k2) => {
            match find_sep(body) {
                None => None,
                Some(d) => {
                    proof {
                        lemma_sep_pos_bounds(body@, 0);
                    }
                    let n = body.len();
                    let left = copy_range(body, 0, d);
                    let right = copy_range(body, d + 1, n);
                    match make_simple(k1, &left) {
                        None => None,
                        Some(a) => {
                            match make_simple(k2, &right) {
                                None => None,
                                Some(b) => {
                                    let ghost va = simple_value_view(a);
                                    let ghost vb = simple_value_view(b);
                                    let res = PropertyValue::Compose(Box::new(a), Box::new(b));
                                    proof {
                                        assert(res@ == PropValueV::Compose(va, vb));
                                    }
                                    Some(res)
                                },
                            }
                        },
                    }
                },
            }
        },
    }
}

fn simple_valid(v: &PropertyValue) -> (b: bool)
    ensures
        b == valid_simple(simple_value_view(*v)),
{
    match v {
        PropertyValue::Number(x, mn, mx) => *mn <= *x && *x <= *mx,
        PropertyValue::Real(t) => {
            let tv = vec_of_str(t.as_str());
            decimal_chars(&tv)
        },
        _ => true,
    }
}

pub(crate) fn value_valid(v: &PropertyValue) -> (b: bool)
    ensures
        b == valid_value(v@),
{
    match v {
        PropertyValue::Compose(a, b2) => {
            let first = simple_valid(&**a);
            if first {
                simple_valid(&**b2)
            } else {
                false
            }
        },
        _ => simple_valid(v),
    }
}

// ---------------------------------------------------------------------
// Validation diagnostics.
// ---------------------------------------------------------------------

/// The decimal digits of `n`, most significant first (a single `0` for
/// zero).
pub open spec fn dec_digits(n: int) -> Seq<char>
    decreases n,
{
    if n < 10 {
        seq![(('0' as u8) + (if 0 <= n { n } else { 0 }) as u8) as char]
    } else {
        dec_digits(n / 10).push((('0' as u8) + (n % 10) as u8) as char)
    }
}

fn u32_digits(n: u32) -> (v: Vec<char>)
    ensures
        v@ == dec_digits(n as int),
    decreases n,
{
    if n < 10 {
        let c = (('0' as u8) + n as u8) as char;
        let mut v: Vec<char> = Vec::new();
        v.push(c);
        proof {
            assert(v@ =~= dec_digits(n as int));
        }
        v
    } else {
        let mut v = u32_digits(n / 10);
        let d = n % 10;
        let c = (('0' as u8) + d as u8) as char;
        v.push(c);
        proof {
            assert(v@ =~= dec_digits(n as int));
        }
        v
    }
}

/// The text of a number-range failure: the offending value and both
/// bounds.
pub open spec fn number_error_detail(v: int, mn: int, mx: int) -> Seq<char> {
    dec_digits(v) + " not in range "@ + dec_digits(mn) + " to "@ + dec_digits(mx)
}

fn number_error_text(v: u32, mn: u32, mx: u32) -> (s: String)
    ensures
        s@ == number_error_detail(v as int, mn as int, mx as int),
{
    let mut s = string_of_chars(&u32_digits(v));
    s.append(" not in range ");
    let low = string_of_chars(&u32_digits(mn));
    s.append(low.as_str());
    s.append(" to ");
    let high = string_of_chars(&u32_digits(mx));
    s.append(high.as_str());
    proof {
        assert(s@ =~= number_error_detail(v as int, mn as int, mx as int));
    }
    s
}

pub open spec fn is_compose(v: PropertyValue) -> bool {
    match v {
        PropertyValue::Compose(_, _) => true,
        _ => false,
    }
}

/// Validity of the value as it stands: a composed value may not nest,
/// and each of its halves must pass its own domain check. On every value
/// the parser builds (whose halves are never composed) this coincides
/// with `valid_value` of the model.
pub open spec fn value_wf(v: PropertyValue) -> bool {
    match v {
        PropertyValue::Compose(a, b) => !is_compose(*a) && !is_compose(*b) && valid_simple(
            simple_value_view(*a),
        ) && valid_simple(simple_value_view(*b)),
        _ => valid_simple(simple_value_view(v)),
    }
}

/// What a failed domain check of a non-composed value reports: the
/// number and its bounds, or the offending decimal text.
pub open spec fn simple_error_detail(v: PropertyValue) -> Seq<char> {
    match v {
        PropertyValue::Number(x, mn, mx) => number_error_detail(x as int, mn as int, mx as int),
        PropertyValue::Real(t) => t@,
        _ => Seq::empty(),
    }
}

/// What a failed domain check reports: for a composed value, nesting
/// first, then the first failing half.
pub open spec fn validate_error_detail(v: PropertyValue) -> Seq<char> {
    match v {
        PropertyValue::Compose(a, b) => if is_compose(*a) || is_compose(*b) {
            "composed value inside a composed value"@
        } else if !valid_simple(simple_value_view(*a)) {
            simple_error_detail(*a)
        } else {
            simple_error_detail(*b)
        },
        _ => simple_error_detail(v),
    }
}

fn simple_error(v: &PropertyValue) -> (e: SgfParseError)
    ensures
        e@ == (ErrV {
            kind: SgfErrorKind::ValueValidationError,
            identifier: Seq::empty(),
            detail: simple_error_detail(*v),
            offset: 0,
        }),
{
    match v {
        PropertyValue::Number(x, mn, mx) => SgfParseError::new(
            SgfErrorKind::ValueValidationError,
            String::new(),
            number_error_text(*x, *mn, *mx),
            0,
        ),
        PropertyValue::Real(t) => SgfParseError::new(
            SgfErrorKind::ValueValidationError,
            String::new(),
            t.clone(),
            0,
        ),
        _ => SgfParseError::new(
            SgfErrorKind::ValueValidationError,
            String::new(),
            String::new(),
            0,
        ),
    }
}

fn is_compose_x(v: &PropertyValue) -> (b: bool)
    ensures
        b == is_compose(*v),
{
    match v {
        PropertyValue::Compose(_, _) => true,
        _ => false,
    }
}

impl PropertyValue {
    /// Domain check of this value: `Ok` exactly when the value is valid
    /// as it stands — a number in its range, a real holding decimal
    /// text, a composed value with no nested composition and two valid
    /// halves. An `Err` names the offending value (and, for a number,
    /// its bounds); the parser adds the identifier and position it
    /// knows.
    pub fn validate(&self) -> (r: Result<(), SgfParseError>)
        ensures
            r is Ok <==> value_wf(*self),
            r is Err ==> r->Err_0@ == (ErrV {
                kind: SgfErrorKind::ValueValidationError,
                identifier: Seq::empty(),
                detail: validate_error_detail(*self),
                offset: 0,
            }),
    {
        match self {
            PropertyValue::Compose(a, b) => {
                if is_compose_x(&**a) || is_compose_x(&**b) {
                    Err(
                        SgfParseError::new(
                            SgfErrorKind::ValueValidationError,
                            String::new(),
                            String::from_str("composed value inside a composed value"),
                            0,
                        ),
                    )
                } else if !simple_valid(&**a) {
                    Err(simple_error(&**a))
                } else if !simple_valid(&**b) {
                    Err(simple_error(&**b))
                } else {
                    Ok(())
                }
            },
            _ => {
                if simple_valid(self) {
                    Ok(())
                } else {
                    Err(simple_error(self))
                }
            },
        }
    }
}

impl Property {
    /// Build the typed value of identifier `id` from the raw bracket text
    /// `val`: catalog dispatch, a miss kept as opaque text.
    pub fn get_prop_val(id: &str, val: &str) -> (r: Result<PropertyValue, SgfParseError>)
        ensures
            match r {
                Ok(v) => spec_make_value(id@, val@) == Some(v@),
                Err(e) => spec_make_value(id@, val@) is None && e@ == (ErrV {
                    kind: SgfErrorKind::ValueValidationError,
                    identifier: id@,
                    detail: val@,
                    offset: 0,
                }),
            },
    {
        let idv = vec_of_str(id);
        match catalog_lookup(&idv) {
            None => {
                let bodyv = vec_of_str(val);
                Ok(PropertyValue::Text(string_of_chars(&decode_hard(&bodyv))))
            },
            Some(k) => {
                let bodyv = vec_of_str(val);
                match make_value(k, &bodyv) {
                    Some(v) => Ok(v),
                    None => Err(
                        SgfParseError::new(
                            SgfErrorKind::ValueValidationError,
                            id.to_owned(),
                            val.to_owned(),
                            0,
                        ),
                    ),
                }
            },
        }
    }
}


// ---------------------------------------------------------------------
// Parsing one property.
// ---------------------------------------------------------------------

pub proof fn lemma_values_view_push(s: Seq<PropertyValue>, v: PropertyValue)
    ensures
        values_view(s.push(v)) == values_view(s).push(v@),
{
    assert(values_view(s.push(v)) =~= values_view(s).push(v@));
}

/// The bracketed values of one property. `values` starts empty or with
/// already-parsed values; on success it holds every value and the result
/// is the position right after the last `]`.
pub(crate) fn parse_values_x(
    src: &Vec<char>,
    pos: usize,
    idv: &Vec<char>,
    kind: ValueKind,
    values: &mut Vec<PropertyValue>,
) -> (r: Result<usize, SgfParseError>)
    requires
        pos <= src@.len(),
        src@.len() < usize::MAX,
        (match catalog_kind_spec(idv@) {
            Some(k) => kind == k,
            None => kind == ValueKind::Single(SimpleKind::TextKind),
        }),
    ensures
        ({
            let sp = spec_parse_values(src@, pos as int, idv@, values_view(old(values)@));
            match r {
                Ok(end) => sp is Ok && end as int == sp->Ok_0.1 && values_view(final(values)@)
                    == sp->Ok_0.0,
                Err(e) => sp is Err && e@ == sp->Err_0,
            }
        }),
{
    let ghost s = src@;
    let ghost acc0 = values_view(values@);
    let n = src.len();
    let mut i = pos;
    loop
        invariant
            pos <= i <= n,
            n == s.len(),
            s == src@,
            s.len() < usize::MAX,
            acc0 == values_view(old(values)@),
            (match catalog_kind_spec(idv@) {
                Some(k) => kind == k,
                None => kind == ValueKind::Single(SimpleKind::TextKind),
            }),
            spec_parse_values(s, pos as int, idv@, acc0) == spec_parse_values(
                s,
                i as int,
                idv@,
                values_view(values@),
            ),
        decreases n - i,
    {
        let p = crate::chars::skip_ws(src, i);
        proof {
            crate::chars::lemma_skip_ws_bounds(s, i as int);
        }
        if p >= n || src[p] != '[' {
            if values.len() == 0 {
                proof {
                    assert(values_view(values@).len() == 0);
                }
                return Err(
                    SgfParseError::new(
                        SgfErrorKind::StructuralError,
                        string_of_chars(idv),
                        String::from_str("property has no values"),
                        p + 1,
                    ),
                );
            } else {
                proof {
                    assert(values_view(values@).len() > 0);
                }
                return Ok(i);
            }
        }
        match find_body_end(src, p + 1) {
            None => {
                return Err(
                    SgfParseError::new(
                        SgfErrorKind::StructuralError,
                        string_of_chars(idv),
                        String::from_str("unterminated property value"),
                        n + 1,
                    ),
                );
            },
            Some(e0) => {
                proof {
                    lemma_body_end_bounds(s, p + 1 as int);
                }
                let body = copy_range(src, p + 1, e0);
                proof {
                    assert(spec_make_value(idv@, body@) == construct_value(kind, body@));
                }
                let made = make_value(kind, &body);
                match made {
                    None => {
                        return Err(
                            SgfParseError::new(
                                SgfErrorKind::ValueValidationError,
                                string_of_chars(idv),
                                string_of_chars(&body),
                                p + 1,
                            ),
                        );
                    },
                    Some(v) => {
                        if !value_valid(&v) {
                            return Err(
                                SgfParseError::new(
                                    SgfErrorKind::ValueValidationError,
                                    string_of_chars(idv),
                                    string_of_chars(&body),
                                    p + 1,
                                ),
                            );
                        }
                        let ghost prev = values@;
                        values.push(v);
                        proof {
                            lemma_values_view_push(prev, v);
                        }
                        i = e0 + 1;
                    },
                }
            },
        }
    }
}

/// One property from the position of its identifier; appends at most one
/// warning (a catalog miss) to `warns`.
pub(crate) fn parse_property_x(
    src: &Vec<char>,
    pos: usize,
    warns: &mut Vec<SgfWarning>,
) -> (r: Result<(Property, usize), SgfParseError>)
    requires
        pos <= src@.len(),
        src@.len() < usize::MAX,
    ensures
        ({
            let sp = spec_parse_property(src@, pos as int);
            match r {
                Ok(ok) => sp is Ok && ok.0@ == sp->Ok_0.0 && ok.1 as int == sp->Ok_0.1
                    && warns_view(final(warns)@) == warns_view(old(warns)@) + sp->Ok_0.2,
                Err(e) => sp is Err && e@ == sp->Err_0,
            }
        }),
{
    let ghost s = src@;
    let idend = upper_end(src, pos);
    if idend == pos {
        return Err(
            SgfParseError::new(
                SgfErrorKind::StructuralError,
                String::new(),
                String::from_str("expected a property identifier"),
                pos + 1,
            ),
        );
    }
    let idv = copy_range(src, pos, idend);
    let kind_opt = catalog_lookup(&idv);
    let kind = match kind_opt {
        Some(k) => k,
        None => ValueKind::Single(SimpleKind::TextKind),
    };
    if kind_opt.is_none() {
        let ghost wprev = warns@;
        warns.push(SgfWarning::new(string_of_chars(&idv), pos + 1));
        proof {
            assert(warns_view(warns@) =~= warns_view(wprev) + seq![
                WarnV { identifier: idv@, offset: pos + 1 },
            ]);
        }
    } else {
        proof {
            assert(warns_view(warns@) =~= warns_view(warns@) + Seq::<WarnV>::empty());
        }
    }
    let mut values: Vec<PropertyValue> = Vec::new();
    proof {
        assert(values_view(values@) =~= Seq::<PropValueV>::empty());
    }
    match parse_values_x(src, idend, &idv, kind, &mut values) {
        Err(e) => Err(e),
        Ok(end) => {
            let prop = Property { id: string_of_chars(&idv), values };
            Ok((prop, end))
        },
    }
}

impl Property {
    /// Parse one property from the start of `source`: its identifier and
    /// bracketed values. Returns the property, the number of characters
    /// consumed (through its last `]`), and the warnings.
    pub fn parse(source: &str) -> (r: Result<(Property, usize, Vec<SgfWarning>), SgfParseError>)
        requires
            source@.len() < usize::MAX,
        ensures
            ({
                let sp = spec_parse_property(source@, 0);
                match r {
                    Ok(ok) => sp is Ok && ok.0@ == sp->Ok_0.0 && ok.1 as int == sp->Ok_0.1
                        && warns_view(ok.2@) == sp->Ok_0.2,
                    Err(e) => sp is Err && e@ == sp->Err_0,
                }
            }),
    {
        let src = vec_of_str(source);
        let mut warns: Vec<SgfWarning> = Vec::new();
        proof {
            assert(warns_view(warns@) =~= Seq::<WarnV>::empty());
        }
        match parse_property_x(&src, 0, &mut warns) {
            Err(e) => Err(e),
            Ok((prop, end)) => {
                proof {
                    match spec_parse_property(source@, 0) {
                        Ok((p2, e2, ws)) => {
                            assert(Seq::<WarnV>::empty() + ws =~= ws);
                        },
                        Err(_) => {},
                    }
                }
                Ok((prop, end, warns))
            },
        }
    }
}

} // verus!


