//! A node: one position entry of a game tree, holding an ordered sequence
//! of properties with at most one property per identifier.

use vstd::prelude::*;
use vstd::string::StringExecFns;

use crate::chars::{lemma_skip_ws_bounds, skip_ws, vec_of_str};
use crate::errors::{SgfErrorKind, SgfParseError, SgfWarning, WarnV, warns_view};
use crate::grammar::{
    has_prop_id, lemma_property_progress, spec_node_props, spec_parse_node, NodeV, PropertyV,
};
use crate::property::{parse_property_x, Property};

verus! {

/// A node: an ordered sequence of properties, no identifier twice.
#[derive(Debug, PartialEq, Eq)]
pub struct Node {
    pub properties: Vec<Property>,
}

pub open spec fn props_view(s: Seq<Property>) -> Seq<PropertyV> {
    s.map_values(|p: Property| p@)
}

impl View for Node {
    type V = NodeV;

    open spec fn view(&self) -> NodeV {
        NodeV { properties: props_view(self.properties@) }
    }
}

pub proof fn lemma_props_view_push(s: Seq<Property>, p: Property)
    ensures
        props_view(s.push(p)) == props_view(s).push(p@),
{
    assert(props_view(s.push(p)) =~= props_view(s).push(p@));
}

fn has_prop(props: &Vec<Property>, id: &String) -> (b: bool)
    ensures
        b == has_prop_id(props_view(props@), id@),
{
    let mut j: usize = 0;
    while j < props.len()
        invariant
            j <= props@.len(),
            forall|k: int| 0 <= k < j ==> props_view(props@)[k].id != id@,
        decreases props@.len() - j,
    {
        if props[j].id == *id {
            proof {
                assert(props_view(props@)[j as int].id == id@);
            }
            return true;
        }
        j = j + 1;
    }
    false
}

/// The properties of one node, from the position right after its `;`.
/// `props` must start empty; on success it holds the properties and the
/// result is the position of the character that ended the node (not
/// consumed).
pub(crate) fn node_props_x(
    src: &Vec<char>,
    pos: usize,
    props: &mut Vec<Property>,
    warns: &mut Vec<SgfWarning>,
) -> (r: Result<usize, SgfParseError>)
    requires
        pos <= src@.len(),
        src@.len() < usize::MAX,
        old(props)@.len() == 0,
    ensures
        ({
            let sp = spec_node_props(src@, pos as int, Seq::empty(), warns_view(old(warns)@));
            match r {
                Ok(end) => sp is Ok && end as int == sp->Ok_0.1 && props_view(final(props)@)
                    == sp->Ok_0.0 && warns_view(final(warns)@) == sp->Ok_0.2,
                Err(e) => sp is Err && e@ == sp->Err_0,
            }
        }),
{
    let ghost s = src@;
    let ghost w0 = warns_view(warns@);
    let n = src.len();
    let mut i = pos;
    proof {
        assert(props_view(props@) =~= Seq::<PropertyV>::empty());
    }
    loop
        invariant
            pos <= i <= n,
            n == s.len(),
            s == src@,
            s.len() < usize::MAX,
            w0 == warns_view(old(warns)@),
            spec_node_props(s, pos as int, Seq::empty(), w0) == spec_node_props(
                s,
                i as int,
                props_view(props@),
                warns_view(warns@),
            ),
        decreases n - i,
    {
        let p = skip_ws(src, i);
        proof {
            lemma_skip_ws_bounds(s, i as int);
        }
        if p >= n {
            return Ok(p);
        }
        let c = src[p];
        if c == ';' || c == '(' || c == ')' {
            return Ok(p);
        }
        match parse_property_x(src, p, warns) {
            Err(e) => {
                return Err(e);
            },
            Ok((prop, pend)) => {
                proof {
                    lemma_property_progress(s, p as int);
                }
                if has_prop(props, &prop.id) {
                    return Err(
                        SgfParseError::new(
                            SgfErrorKind::DuplicatePropertyError,
                            prop.id,
                            String::from_str("duplicate property in node"),
                            p + 1,
                        ),
                    );
                }
                let ghost pprev = props@;
                props.push(prop);
                proof {
                    lemma_props_view_push(pprev, prop);
                }
                i = pend;
            },
        }
    }
}

impl Node {
    /// Parse one node from the start of `source`, which must begin with
    /// the `;` marker; the marker is skipped and its properties read.
    /// Returns the node, the number of characters consumed including the
    /// marker (the `;`, `(` or `)` that ended the node is not consumed),
    /// and the warnings.
    pub fn parse(source: &str) -> (r: Result<(Node, usize, Vec<SgfWarning>), SgfParseError>)
        requires
            source@.len() < usize::MAX,
        ensures
            ({
                let sp = spec_parse_node(source@);
                match r {
                    Ok(ok) => sp is Ok && ok.0@ == (NodeV { properties: sp->Ok_0.0 }) && ok.1 as int
                        == sp->Ok_0.1 && warns_view(ok.2@) == sp->Ok_0.2,
                    Err(e) => sp is Err && e@ == sp->Err_0,
                }
            }),
    {
        let src = vec_of_str(source);
        if src.len() == 0 || src[0] != ';' {
            return Err(
                SgfParseError::new(
                    SgfErrorKind::StructuralError,
                    String::new(),
                    String::from_str("expected a node marker"),
                    1,
                ),
            );
        }
        let mut props: Vec<Property> = Vec::new();
        let mut warns: Vec<SgfWarning> = Vec::new();
        proof {
            assert(warns_view(warns@) =~= Seq::<WarnV>::empty());
        }
        match node_props_x(&src, 1, &mut props, &mut warns) {
            Err(e) => Err(e),
            Ok(end) => Ok((Node { properties: props }, end, warns)),
        }
    }
}

} // verus!
