//! A game tree: a record's main line of nodes plus its child variations,
//! recursively nested.

use vstd::prelude::*;
use vstd::string::StringExecFns;

use crate::chars::{lemma_skip_ws_bounds, skip_ws, vec_of_str};
use crate::errors::{SgfErrorKind, SgfParseError, SgfWarning, WarnV, warns_view};
use crate::grammar::{
    lemma_node_progress, lemma_tree_progress, spec_node_props, spec_parse_game_tree,
    spec_tree_body, GameTreeV, NodeV, PropertyV,
};
use crate::node::{node_props_x, props_view, Node};
use crate::property::Property;

verus! {

broadcast use vstd::std_specs::vec::group_vec_axioms;

/// A game tree: its node sequence and its child trees. The children are
/// called `leaves` since `Node` already has a meaning of its own here.
#[derive(Debug, PartialEq, Eq)]
pub struct GameTree {
    pub sequence: Vec<Node>,
    pub leaves: Vec<GameTree>,
}

pub open spec fn nodes_view(s: Seq<Node>) -> Seq<NodeV> {
    s.map_values(|n: Node| n@)
}

/// Model of a game tree, recursively over its children.
pub open spec fn tree_view(t: GameTree) -> GameTreeV
    decreases t, 1int,
{
    GameTreeV { sequence: nodes_view(t.sequence@), leaves: trees_view(t.leaves@) }
}

/// Model of a sequence of game trees.
pub open spec fn trees_view(s: Seq<GameTree>) -> Seq<GameTreeV>
    decreases s, 0int,
{
    if s.len() == 0 {
        Seq::empty()
    } else {
        seq![tree_view(s[0])] + trees_view(s.subrange(1, s.len() as int))
    }
}

impl View for GameTree {
    type V = GameTreeV;

    open spec fn view(&self) -> GameTreeV {
        tree_view(*self)
    }
}

pub proof fn lemma_nodes_view_push(s: Seq<Node>, n: Node)
    ensures
        nodes_view(s.push(n)) == nodes_view(s).push(n@),
{
    assert(nodes_view(s.push(n)) =~= nodes_view(s).push(n@));
}

pub proof fn lemma_trees_view_push(s: Seq<GameTree>, t: GameTree)
    ensures
        trees_view(s.push(t)) == trees_view(s).push(tree_view(t)),
    decreases s.len(),
{
    let ss = s.push(t);
    if s.len() == 0 {
        assert(s =~= Seq::<GameTree>::empty());
        assert(trees_view(Seq::<GameTree>::empty()) == Seq::<GameTreeV>::empty());
        assert(ss.subrange(1, ss.len() as int) =~= Seq::<GameTree>::empty());
        assert(ss[0] == t);
        assert(trees_view(ss) == seq![tree_view(t)] + Seq::<GameTreeV>::empty());
        assert(trees_view(ss) =~= trees_view(s).push(tree_view(t)));
    } else {
        assert(ss[0] == s[0]);
        assert(ss.subrange(1, ss.len() as int) =~= s.subrange(1, s.len() as int).push(t));
        lemma_trees_view_push(s.subrange(1, s.len() as int), t);
        assert(trees_view(ss) =~= trees_view(s).push(tree_view(t)));
    }
}

/// The body of one game tree, from the position right after its `(`.
/// On success the result is the tree and the position right after its
/// closing `)` (or the end of input, in lenient mode).
pub(crate) fn tree_body_x(
    src: &Vec<char>,
    pos: usize,
    strict: bool,
    warns: &mut Vec<SgfWarning>,
) -> (r: Result<(GameTree, usize), SgfParseError>)
    requires
        pos <= src@.len(),
        src@.len() < usize::MAX,
    ensures
        ({
            let sp = spec_tree_body(
                src@,
                pos as int,
                Seq::empty(),
                Seq::empty(),
                warns_view(old(warns)@),
                strict,
            );
            match r {
                Ok(ok) => sp is Ok && tree_view(ok.0) == sp->Ok_0.0 && ok.1 as int == sp->Ok_0.1
                    && warns_view(final(warns)@) == sp->Ok_0.2,
                Err(e) => sp is Err && e@ == sp->Err_0,
            }
        }),
    decreases src@.len() - pos,
{
    let ghost s = src@;
    let ghost w0 = warns_view(warns@);
    let n = src.len();
    let mut nodes: Vec<Node> = Vec::new();
    let mut leaves: Vec<GameTree> = Vec::new();
    let mut i = pos;
    proof {
        assert(nodes_view(nodes@) =~= Seq::<NodeV>::empty());
        assert(trees_view(leaves@) =~= Seq::<GameTreeV>::empty());
    }
    loop
        invariant
            pos <= i <= n,
            n == s.len(),
            s == src@,
            s.len() < usize::MAX,
            w0 == warns_view(old(warns)@),
            spec_tree_body(s, pos as int, Seq::empty(), Seq::empty(), w0, strict)
                == spec_tree_body(
                s,
                i as int,
                nodes_view(nodes@),
                trees_view(leaves@),
                warns_view(warns@),
                strict,
            ),
        decreases n - i,
    {
        let p = skip_ws(src, i);
        proof {
            lemma_skip_ws_bounds(s, i as int);
        }
        if p >= n {
            if strict {
                return Err(
                    SgfParseError::new(
                        SgfErrorKind::StructuralError,
                        String::new(),
                        String::from_str("unterminated game tree"),
                        n + 1,
                    ),
                );
            }
            return Ok((GameTree { sequence: nodes, leaves }, n));
        }
        let c = src[p];
        if c == ')' {
            return Ok((GameTree { sequence: nodes, leaves }, p + 1));
        } else if c == ';' {
            let ghost wprev = warns_view(warns@);
            let mut props: Vec<Property> = Vec::new();
            proof {
                assert(props_view(props@) =~= Seq::<PropertyV>::empty());
            }
            match node_props_x(src, p + 1, &mut props, warns) {
                Err(e) => {
                    return Err(e);
                },
                Ok(nend) => {
                    proof {
                        lemma_node_progress(s, p + 1 as int, Seq::empty(), wprev);
                    }
                    let node = Node { properties: props };
                    let ghost nprev = nodes@;
                    nodes.push(node);
                    proof {
                        lemma_nodes_view_push(nprev, node);
                    }
                    i = nend;
                },
            }
        } else if c == '(' {
            let ghost wprev = warns_view(warns@);
            match tree_body_x(src, p + 1, strict, warns) {
                Err(e) => {
                    return Err(e);
                },
                Ok((child, cend)) => {
                    proof {
                        lemma_tree_progress(s, p + 1 as int, Seq::empty(), Seq::empty(), wprev, strict);
                    }
                    let ghost lprev = leaves@;
                    leaves.push(child);
                    proof {
                        lemma_trees_view_push(lprev, child);
                    }
                    i = cend;
                },
            }
        } else {
            return Err(
                SgfParseError::new(
                    SgfErrorKind::StructuralError,
                    String::new(),
                    String::from_str("unexpected character outside node"),
                    p + 1,
                ),
            );
        }
    }
}

impl GameTree {
    /// Parse one game tree from the start of `source`, which must begin
    /// with the opening `(`, strictly: reaching the end of input without
    /// the matching `)` is a structural error. Returns the tree, the
    /// number of characters consumed including both delimiters, and the
    /// warnings.
    pub fn parse(source: &str) -> (r: Result<(GameTree, usize, Vec<SgfWarning>), SgfParseError>)
        requires
            source@.len() < usize::MAX,
        ensures
            ({
                let sp = spec_parse_game_tree(source@, true);
                match r {
                    Ok(ok) => sp is Ok && tree_view(ok.0) == sp->Ok_0.0 && ok.1 as int
                        == sp->Ok_0.1 && warns_view(ok.2@) == sp->Ok_0.2,
                    Err(e) => sp is Err && e@ == sp->Err_0,
                }
            }),
    {
        let src = vec_of_str(source);
        if src.len() == 0 || src[0] != '(' {
            return Err(
                SgfParseError::new(
                    SgfErrorKind::StructuralError,
                    String::new(),
                    String::from_str("expected an opening delimiter"),
                    1,
                ),
            );
        }
        let mut warns: Vec<SgfWarning> = Vec::new();
        proof {
            assert(warns_view(warns@) =~= Seq::<WarnV>::empty());
        }
        match tree_body_x(&src, 1, true, &mut warns) {
            Err(e) => Err(e),
            Ok((tree, end)) => Ok((tree, end, warns)),
        }
    }

    /// The explicitly lenient mode: the end of input closes every open
    /// tree instead of being an error. Otherwise as [`GameTree::parse`].
    pub fn parse_lenient(source: &str) -> (r: Result<
        (GameTree, usize, Vec<SgfWarning>),
        SgfParseError,
    >)
        requires
            source@.len() < usize::MAX,
        ensures
            ({
                let sp = spec_parse_game_tree(source@, false);
                match r {
                    Ok(ok) => sp is Ok && tree_view(ok.0) == sp->Ok_0.0 && ok.1 as int
                        == sp->Ok_0.1 && warns_view(ok.2@) == sp->Ok_0.2,
                    Err(e) => sp is Err && e@ == sp->Err_0,
                }
            }),
    {
        let src = vec_of_str(source);
        if src.len() == 0 || src[0] != '(' {
            return Err(
                SgfParseError::new(
                    SgfErrorKind::StructuralError,
                    String::new(),
                    String::from_str("expected an opening delimiter"),
                    1,
                ),
            );
        }
        let mut warns: Vec<SgfWarning> = Vec::new();
        proof {
            assert(warns_view(warns@) =~= Seq::<WarnV>::empty());
        }
        match tree_body_x(&src, 1, false, &mut warns) {
            Err(e) => Err(e),
            Ok((tree, end)) => Ok((tree, end, warns)),
        }
    }
}

} // verus!
