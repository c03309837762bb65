//! The mathematical model of a parsed document and the grammar itself: a
//! recursive definition, over the input character sequence and a cursor
//! position, of exactly what each parsing layer returns. The executable
//! parsers are proved equal to these definitions.

use vstd::prelude::*;

use crate::chars::{
    lemma_skip_ws_bounds, lemma_upper_end_bounds, spec_skip_ws, spec_upper_end, step_pos,
};
use crate::errors::{ErrV, SgfErrorKind, WarnV};
use crate::property::{catalog_kind_spec, spec_make_value, valid_value};
use crate::text::{lemma_body_end_bounds, spec_body_end};

verus! {

/// Model of a simple (non-composed) property value.
pub enum SimpleValueV {
    Empty,
    Number(int, int, int),
    Real(Seq<char>),
    Double(bool),
    Color(crate::property::Color),
    SimpleText(Seq<char>),
    Text(Seq<char>),
    Point(Seq<char>),
    Move(Seq<char>),
    Stone(Seq<char>),
}

/// Model of a property value: one simple value or a composed pair.
pub enum PropValueV {
    Single(SimpleValueV),
    Compose(SimpleValueV, SimpleValueV),
}

/// Model of a property.
pub struct PropertyV {
    pub id: Seq<char>,
    pub values: Seq<PropValueV>,
}

/// Model of a node.
pub struct NodeV {
    pub properties: Seq<PropertyV>,
}

/// Model of a game tree: its node sequence and its child variations.
pub struct GameTreeV {
    pub sequence: Seq<NodeV>,
    pub leaves: Seq<GameTreeV>,
}

/// Model of a collection.
pub struct CollectionV {
    pub game_trees: Seq<GameTreeV>,
}

/// Whether some property in `acc` already has the identifier `id`.
pub open spec fn has_prop_id(acc: Seq<PropertyV>, id: Seq<char>) -> bool {
    exists|j: int| 0 <= j < acc.len() && acc[j].id == id
}

/// The bracketed values of one property, from position `pos` (right after
/// the identifier, or after the previous `]`): while the next
/// non-whitespace character is `[`, one value per bracket pair. At least
/// one value is required. `Ok` carries the values and the position right
/// after the last `]`.
pub open spec fn spec_parse_values(
    s: Seq<char>,
    pos: int,
    id: Seq<char>,
    acc: Seq<PropValueV>,
) -> Result<(Seq<PropValueV>, int), ErrV>
    decreases s.len() - pos,
{
    let p = step_pos(pos - 1, spec_skip_ws(s, pos), s.len() as int);
    if p >= s.len() || s[p] != '[' {
        if acc.len() == 0 {
            Err(
                ErrV {
                    kind: SgfErrorKind::StructuralError,
                    identifier: id,
                    detail: "property has no values"@,
                    offset: p + 1,
                },
            )
        } else {
            Ok((acc, pos))
        }
    } else {
        match spec_body_end(s, p + 1) {
            None => Err(
                ErrV {
                    kind: SgfErrorKind::StructuralError,
                    identifier: id,
                    detail: "unterminated property value"@,
                    offset: s.len() as int + 1,
                },
            ),
            Some(e0) => {
                let raw = s.subrange(p + 1, e0);
                match spec_make_value(id, raw) {
                    None => Err(
                        ErrV {
                            kind: SgfErrorKind::ValueValidationError,
                            identifier: id,
                            detail: raw,
                            offset: p + 1,
                        },
                    ),
                    Some(v) => if !valid_value(v) {
                        Err(
                            ErrV {
                                kind: SgfErrorKind::ValueValidationError,
                                identifier: id,
                                detail: raw,
                                offset: p + 1,
                            },
                        )
                    } else {
                        spec_parse_values(
                            s,
                            step_pos(p, e0 + 1, s.len() as int),
                            id,
                            acc.push(v),
                        )
                    },
                }
            },
        }
    }
}

/// One property, from the position of its identifier: the uppercase run,
/// then its values. A catalog miss yields one warning and keeps the
/// values as opaque text. `Ok` carries the property, the position right
/// after its last `]`, and the warnings.
pub open spec fn spec_parse_property(s: Seq<char>, pos: int) -> Result<
    (PropertyV, int, Seq<WarnV>),
    ErrV,
> {
    let idend = spec_upper_end(s, pos);
    if idend <= pos {
        Err(
            ErrV {
                kind: SgfErrorKind::StructuralError,
                identifier: Seq::empty(),
                detail: "expected a property identifier"@,
                offset: pos + 1,
            },
        )
    } else {
        let id = s.subrange(pos, idend);
        let warns: Seq<WarnV> = if catalog_kind_spec(id) is Some {
            Seq::empty()
        } else {
            seq![WarnV { identifier: id, offset: pos + 1 }]
        };
        match spec_parse_values(s, idend, id, Seq::empty()) {
            Err(e) => Err(e),
            Ok((vals, end)) => Ok((PropertyV { id, values: vals }, end, warns)),
        }
    }
}

/// The properties of one node, from the position right after its `;`:
/// properties until a `;`, `(`, `)` or the end of input, none consumed.
/// A second property with an identifier already in the node is fatal.
pub open spec fn spec_node_props(
    s: Seq<char>,
    pos: int,
    acc: Seq<PropertyV>,
    warns: Seq<WarnV>,
) -> Result<(Seq<PropertyV>, int, Seq<WarnV>), ErrV>
    decreases s.len() - pos,
{
    let p = step_pos(pos - 1, spec_skip_ws(s, pos), s.len() as int);
    if p >= s.len() || s[p] == ';' || s[p] == '(' || s[p] == ')' {
        Ok((acc, p, warns))
    } else {
        match spec_parse_property(s, p) {
            Err(e) => Err(e),
            Ok((prop, end, w)) => if has_prop_id(acc, prop.id) {
                Err(
                    ErrV {
                        kind: SgfErrorKind::DuplicatePropertyError,
                        identifier: prop.id,
                        detail: "duplicate property in node"@,
                        offset: p + 1,
                    },
                )
            } else {
                spec_node_props(
                    s,
                    step_pos(p, end, s.len() as int),
                    acc.push(prop),
                    warns + w,
                )
            },
        }
    }
}

/// The body of one game tree, from the position right after its `(`: a
/// `;` starts a node, a nested `(` a child tree, `)` closes the tree (and
/// is consumed), anything else is fatal. Reaching the end of input first
/// is fatal when `strict` holds and an implicit close otherwise.
pub open spec fn spec_tree_body(
    s: Seq<char>,
    pos: int,
    nodes: Seq<NodeV>,
    leaves: Seq<GameTreeV>,
    warns: Seq<WarnV>,
    strict: bool,
) -> Result<(GameTreeV, int, Seq<WarnV>), ErrV>
    decreases s.len() - pos,
{
    let p = step_pos(pos - 1, spec_skip_ws(s, pos), s.len() as int);
    if p >= s.len() {
        if strict {
            Err(
                ErrV {
                    kind: SgfErrorKind::StructuralError,
                    identifier: Seq::empty(),
                    detail: "unterminated game tree"@,
                    offset: s.len() as int + 1,
                },
            )
        } else {
            Ok((GameTreeV { sequence: nodes, leaves }, s.len() as int, warns))
        }
    } else if s[p] == ')' {
        Ok((GameTreeV { sequence: nodes, leaves }, p + 1, warns))
    } else if s[p] == ';' {
        match spec_node_props(s, p + 1, Seq::empty(), warns) {
            Err(e) => Err(e),
            Ok((props, nend, w2)) => spec_tree_body(
                s,
                step_pos(p, nend, s.len() as int),
                nodes.push(NodeV { properties: props }),
                leaves,
                w2,
                strict,
            ),
        }
    } else if s[p] == '(' {
        if p + 1 >= s.len() {
            // The nested tree's body begins at the end of input.
            if strict {
                Err(
                    ErrV {
                        kind: SgfErrorKind::StructuralError,
                        identifier: Seq::empty(),
                        detail: "unterminated game tree"@,
                        offset: s.len() as int + 1,
                    },
                )
            } else {
                Ok(
                    (
                        GameTreeV {
                            sequence: nodes,
                            leaves: leaves.push(
                                GameTreeV { sequence: Seq::empty(), leaves: Seq::empty() },
                            ),
                        },
                        s.len() as int,
                        warns,
                    ),
                )
            }
        } else {
            match spec_tree_body(s, p + 1, Seq::empty(), Seq::empty(), warns, strict) {
                Err(e) => Err(e),
                Ok((child, cend, w2)) => spec_tree_body(
                    s,
                    step_pos(p + 1, cend, s.len() as int),
                    nodes,
                    leaves.push(child),
                    w2,
                    strict,
                ),
            }
        }
    } else {
        Err(
            ErrV {
                kind: SgfErrorKind::StructuralError,
                identifier: Seq::empty(),
                detail: "unexpected character outside node"@,
                offset: p + 1,
            },
        )
    }
}

/// The top level of a document, from `pos`: whitespace and `(` alone are
/// legal, each `(` opening one game tree (parsed strictly).
pub open spec fn spec_collection_items(
    s: Seq<char>,
    pos: int,
    trees: Seq<GameTreeV>,
    warns: Seq<WarnV>,
) -> Result<(Seq<GameTreeV>, Seq<WarnV>), ErrV>
    decreases s.len() - pos,
{
    let p = step_pos(pos - 1, spec_skip_ws(s, pos), s.len() as int);
    if p >= s.len() {
        Ok((trees, warns))
    } else if s[p] == '(' {
        if p + 1 >= s.len() {
            Err(
                ErrV {
                    kind: SgfErrorKind::StructuralError,
                    identifier: Seq::empty(),
                    detail: "unterminated game tree"@,
                    offset: s.len() as int + 1,
                },
            )
        } else {
            match spec_tree_body(s, p + 1, Seq::empty(), Seq::empty(), warns, true) {
                Err(e) => Err(e),
                Ok((t, tend, w2)) => spec_collection_items(
                    s,
                    step_pos(p + 1, tend, s.len() as int),
                    trees.push(t),
                    w2,
                ),
            }
        }
    } else {
        Err(
            ErrV {
                kind: SgfErrorKind::StructuralError,
                identifier: Seq::empty(),
                detail: "unexpected character at document level"@,
                offset: p + 1,
            },
        )
    }
}

/// One game tree taken from the start of `s`: the text must begin with
/// the opening `(`; the body runs from the next position, and a
/// successful result's consumed length includes both the opening and the
/// matching closing delimiter.
pub open spec fn spec_parse_game_tree(s: Seq<char>, strict: bool) -> Result<
    (GameTreeV, int, Seq<WarnV>),
    ErrV,
> {
    if s.len() == 0 || s[0] != '(' {
        Err(
            ErrV {
                kind: SgfErrorKind::StructuralError,
                identifier: Seq::empty(),
                detail: "expected an opening delimiter"@,
                offset: 1,
            },
        )
    } else {
        spec_tree_body(s, 1, Seq::empty(), Seq::empty(), Seq::empty(), strict)
    }
}

/// One node taken from the start of `s`: the text must begin with the
/// `;` marker, which is skipped; a successful result's consumed length
/// includes the marker and stops before the character that ended the
/// node.
pub open spec fn spec_parse_node(s: Seq<char>) -> Result<(Seq<PropertyV>, int, Seq<WarnV>), ErrV> {
    if s.len() == 0 || s[0] != ';' {
        Err(
            ErrV {
                kind: SgfErrorKind::StructuralError,
                identifier: Seq::empty(),
                detail: "expected a node marker"@,
                offset: 1,
            },
        )
    } else {
        spec_node_props(s, 1, Seq::empty(), Seq::empty())
    }
}

/// What parsing one whole document returns: the collection and its
/// warnings, or the first fatal error.
pub open spec fn spec_parse_collection(s: Seq<char>) -> Result<
    (CollectionV, Seq<WarnV>),
    ErrV,
> {
    match spec_collection_items(s, 0, Seq::empty(), Seq::empty()) {
        Err(e) => Err(e),
        Ok((trees, warns)) => Ok((CollectionV { game_trees: trees }, warns)),
    }
}

// ---------------------------------------------------------------------
// Progress: every successful layer ends within the input and past its
// starting position, so the position clamps in the definitions above
// change nothing and the executable parsers advance.
// ---------------------------------------------------------------------

pub proof fn lemma_values_progress(s: Seq<char>, pos: int, id: Seq<char>, acc: Seq<PropValueV>)
    requires
        0 <= pos <= s.len(),
    ensures
        match spec_parse_values(s, pos, id, acc) {
            Ok((vals, end)) => pos <= end <= s.len() && (acc.len() == 0 ==> pos < end),
            Err(e) => true,
        },
    decreases s.len() - pos,
{
    lemma_skip_ws_bounds(s, pos);
    let p = step_pos(pos - 1, spec_skip_ws(s, pos), s.len() as int);
    if p >= s.len() || s[p] != '[' {
    } else {
        lemma_body_end_bounds(s, p + 1);
        match spec_body_end(s, p + 1) {
            None => {},
            Some(e0) => {
                let raw = s.subrange(p + 1, e0);
                match spec_make_value(id, raw) {
                    None => {},
                    Some(v) => {
                        if valid_value(v) {
                            lemma_values_progress(s, e0 + 1, id, acc.push(v));
                        }
                    },
                }
            },
        }
    }
}

pub proof fn lemma_property_progress(s: Seq<char>, pos: int)
    requires
        0 <= pos <= s.len(),
    ensures
        match spec_parse_property(s, pos) {
            Ok((prop, end, w)) => pos < end <= s.len(),
            Err(e) => true,
        },
{
    lemma_upper_end_bounds(s, pos);
    let idend = spec_upper_end(s, pos);
    if idend > pos {
        lemma_values_progress(s, idend, s.subrange(pos, idend), Seq::empty());
    }
}

pub proof fn lemma_node_progress(s: Seq<char>, pos: int, acc: Seq<PropertyV>, warns: Seq<WarnV>)
    requires
        0 <= pos <= s.len(),
    ensures
        match spec_node_props(s, pos, acc, warns) {
            Ok((props, end, w)) => pos <= end <= s.len(),
            Err(e) => true,
        },
    decreases s.len() - pos,
{
    lemma_skip_ws_bounds(s, pos);
    let p = step_pos(pos - 1, spec_skip_ws(s, pos), s.len() as int);
    if p >= s.len() || s[p] == ';' || s[p] == '(' || s[p] == ')' {
    } else {
        lemma_property_progress(s, p);
        match spec_parse_property(s, p) {
            Err(e) => {},
            Ok((prop, end, w)) => {
                if !has_prop_id(acc, prop.id) {
                    lemma_node_progress(s, end, acc.push(prop), warns + w);
                }
            },
        }
    }
}

pub proof fn lemma_tree_progress(
    s: Seq<char>,
    pos: int,
    nodes: Seq<NodeV>,
    leaves: Seq<GameTreeV>,
    warns: Seq<WarnV>,
    strict: bool,
)
    requires
        0 <= pos <= s.len(),
    ensures
        match spec_tree_body(s, pos, nodes, leaves, warns, strict) {
            Ok((t, end, w)) => pos <= end <= s.len() && (pos < s.len() ==> pos < end),
            Err(e) => true,
        },
    decreases s.len() - pos,
{
    lemma_skip_ws_bounds(s, pos);
    let p = step_pos(pos - 1, spec_skip_ws(s, pos), s.len() as int);
    if p >= s.len() {
    } else if s[p] == ')' {
    } else if s[p] == ';' {
        lemma_node_progress(s, p + 1, Seq::empty(), warns);
        match spec_node_props(s, p + 1, Seq::empty(), warns) {
            Err(e) => {},
            Ok((props, nend, w2)) => {
                lemma_tree_progress(
                    s,
                    nend,
                    nodes.push(NodeV { properties: props }),
                    leaves,
                    w2,
                    strict,
                );
            },
        }
    } else if s[p] == '(' {
        if p + 1 < s.len() {
            lemma_tree_progress(s, p + 1, Seq::empty(), Seq::empty(), warns, strict);
            match spec_tree_body(s, p + 1, Seq::empty(), Seq::empty(), warns, strict) {
                Err(e) => {},
                Ok((child, cend, w2)) => {
                    lemma_tree_progress(s, cend, nodes, leaves.push(child), w2, strict);
                },
            }
        }
    } else {
    }
}

// ---------------------------------------------------------------------
// Determinism.
// ---------------------------------------------------------------------

/// Parsing is deterministic and idempotent: two parses of one and the
/// same input text return one and the same outcome — structurally equal
/// trees and an identical warning sequence (or the identical error).
/// `Collection::new` ties each of its results to `spec_parse_collection`
/// of its input, so this law covers any two of its calls.
pub proof fn lemma_parse_deterministic(
    s1: Seq<char>,
    s2: Seq<char>,
    r1: Result<(CollectionV, Seq<WarnV>), ErrV>,
    r2: Result<(CollectionV, Seq<WarnV>), ErrV>,
)
    requires
        s1 == s2,
        r1 == spec_parse_collection(s1),
        r2 == spec_parse_collection(s2),
    ensures
        r1 == r2,
{
}

} // verus!
