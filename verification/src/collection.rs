//! A collection: the ordered top-level game trees of one document.

use vstd::prelude::*;
use vstd::string::StringExecFns;

use crate::chars::{lemma_skip_ws_bounds, skip_ws, vec_of_str};
use crate::errors::{SgfErrorKind, SgfParseError, SgfWarning, WarnV, warns_view};
use crate::game_tree::{lemma_trees_view_push, tree_body_x, trees_view, GameTree};
use crate::grammar::{
    lemma_tree_progress, spec_collection_items, spec_parse_collection, CollectionV, GameTreeV,
};

verus! {

/// A collection: the top-level game trees of one document, in document
/// order.
#[derive(Debug, PartialEq, Eq)]
pub struct Collection {
    pub game_trees: Vec<GameTree>,
}

impl View for Collection {
    type V = CollectionV;

    open spec fn view(&self) -> CollectionV {
        CollectionV { game_trees: trees_view(self.game_trees@) }
    }
}

impl Collection {
    /// Parse one whole document: at the top level only whitespace and
    /// `(` are legal, each `(` opening one game tree, parsed strictly.
    /// On success, the collection and the ordered non-fatal warnings; on
    /// failure, the first fatal error.
    pub fn parse(source: &str) -> (r: Result<(Collection, Vec<SgfWarning>), SgfParseError>)
        requires
            source@.len() < usize::MAX,
        ensures
            ({
                let sp = spec_parse_collection(source@);
                match r {
                    Ok(ok) => sp is Ok && ok.0@ == sp->Ok_0.0 && warns_view(ok.1@) == sp->Ok_0.1,
                    Err(e) => sp is Err && e@ == sp->Err_0,
                }
            }),
    {
        let src = vec_of_str(source);
        let ghost s = src@;
        let n = src.len();
        let mut trees: Vec<GameTree> = Vec::new();
        let mut warns: Vec<SgfWarning> = Vec::new();
        let mut i: usize = 0;
        proof {
            assert(trees_view(trees@) =~= Seq::<GameTreeV>::empty());
            assert(warns_view(warns@) =~= Seq::<WarnV>::empty());
        }
        loop
            invariant
                i <= n,
                n == s.len(),
                s == src@,
                s == source@,
                s.len() < usize::MAX,
                spec_collection_items(s, 0, Seq::empty(), Seq::empty()) == spec_collection_items(
                    s,
                    i as int,
                    trees_view(trees@),
                    warns_view(warns@),
                ),
            decreases n - i,
        {
            let p = skip_ws(&src, i);
            proof {
                lemma_skip_ws_bounds(s, i as int);
            }
            if p >= n {
                return Ok((Collection { game_trees: trees }, warns));
            }
            let c = src[p];
            if c == '(' {
                let ghost wprev = warns_view(warns@);
                match tree_body_x(&src, p + 1, true, &mut warns) {
                    Err(e) => {
                        return Err(e);
                    },
                    Ok((t, tend)) => {
                        proof {
                            lemma_tree_progress(
                                s,
                                p + 1 as int,
                                Seq::empty(),
                                Seq::empty(),
                                wprev,
                                true,
                            );
                        }
                        let ghost tprev = trees@;
                        trees.push(t);
                        proof {
                            lemma_trees_view_push(tprev, t);
                        }
                        i = tend;
                    },
                }
            } else {
                return Err(
                    SgfParseError::new(
                        SgfErrorKind::StructuralError,
                        String::new(),
                        String::from_str("unexpected character at document level"),
                        p + 1,
                    ),
                );
            }
        }
    }

    /// Parse one whole document; the library's entry point.
    pub fn new(source: &str) -> (r: Result<(Collection, Vec<SgfWarning>), SgfParseError>)
        requires
            source@.len() < usize::MAX,
        ensures
            ({
                let sp = spec_parse_collection(source@);
                match r {
                    Ok(ok) => sp is Ok && ok.0@ == sp->Ok_0.0 && warns_view(ok.1@) == sp->Ok_0.1,
                    Err(e) => sp is Err && e@ == sp->Err_0,
                }
            }),
    {
        Self::parse(source)
    }
}

} // verus!
