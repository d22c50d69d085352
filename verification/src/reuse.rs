//! Searching a tree that was kept from an earlier turn.
//!
//! A search reads the score of a node only at its last ply. So a kept tree
//! whose nodes all lie above that ply is searched with the same result as a
//! tree made from scratch for the same position: what it holds saves work and
//! changes nothing.

use vstd::prelude::*;
use crate::eval::lemma_static_score_in_range;
use crate::position::{playable, status_of, Color, Move, Status};
use crate::search::{lemma_search_well_formed, maximizing, scan, search};
use crate::tree::{children_of, fresh, offspring, successors, well_formed, Tree};

verus! {

/// No node of `t` lies more than `height` plies below its root.
pub open spec fn within(t: Tree, height: nat) -> bool
    decreases height,
{
    match t.children {
        None => true,
        Some(cs) => height > 0 && forall|i: int|
            0 <= i < cs.len() ==> within((#[trigger] cs[i]).1, (height - 1) as nat),
    }
}

/// A tree within some height is within every greater height.
pub proof fn lemma_within_grows(t: Tree, height: nat, more: nat)
    requires
        within(t, height),
        height <= more,
    ensures
        within(t, more),
    decreases height,
{
    match t.children {
        None => {},
        Some(cs) => {
            assert forall|i: int| 0 <= i < cs.len() implies within(
                (#[trigger] cs[i]).1,
                (more - 1) as nat,
            ) by {
                lemma_within_grows(cs[i].1, (height - 1) as nat, (more - 1) as nat);
            }
        },
    }
}

/// The greater of two heights.
pub open spec fn higher(a: nat, b: nat) -> nat {
    if a >= b {
        a
    } else {
        b
    }
}

/// A search to `depth` plies makes no node below that depth: a tree within
/// `height` is afterwards within the greater of `height` and `depth`.
pub proof fn lemma_search_height(
    t: Tree,
    depth: nat,
    alpha: int,
    beta: int,
    side: Color,
    height: nat,
)
    requires
        within(t, height),
    ensures
        within(search(t, depth, alpha, beta, side).tree, higher(height, depth)),
    decreases depth, 0nat,
{
    lemma_within_grows(t, height, higher(height, depth));
    if status_of(t.position) == Status::Ongoing && depth > 0 {
        let cs = children_of(t, side);
        let below = (higher(height, depth) - 1) as nat;
        assert forall|i: int| 0 <= i < cs.len() implies within((#[trigger] cs[i]).1, below) by {
            if t.children.is_none() {
                assert(cs[i].1 == fresh(successors(t.position)[i].1, side));
            }
        }
        lemma_scan_height(
            cs,
            cs.len(),
            (depth - 1) as nat,
            alpha,
            beta,
            side,
            maximizing(t.position, side),
            below,
        );
    }
}

/// The walk over children that are within `height`, each searched to `depth`
/// plies, leaves them within the greater of `height` and `depth`.
pub proof fn lemma_scan_height(
    cs: Seq<(Move, Tree)>,
    upto: nat,
    depth: nat,
    alpha: int,
    beta: int,
    side: Color,
    maximize: bool,
    height: nat,
)
    requires
        upto <= cs.len(),
        depth <= height,
        forall|i: int| 0 <= i < cs.len() ==> within((#[trigger] cs[i]).1, height),
    ensures
        scan(cs, upto, depth, alpha, beta, side, maximize).children.len() == cs.len(),
        forall|i: int|
            0 <= i < cs.len() ==> within(
                (#[trigger] scan(cs, upto, depth, alpha, beta, side, maximize).children[i]).1,
                height,
            ),
    decreases depth, upto,
{
    if upto > 0 {
        let before = scan(cs, (upto - 1) as nat, depth, alpha, beta, side, maximize);
        lemma_scan_height(cs, (upto - 1) as nat, depth, alpha, beta, side, maximize, height);
        if !before.cut {
            lemma_search_height(cs[upto - 1].1, depth, before.alpha, before.beta, side, height);
        }
    }
}

/// A kept tree is as good as a new one: where no node of the well-formed
/// tree `t` lies `depth` plies or more below its root, a search of `t` to
/// `depth` plies gives the score and the choice that the search of a fresh
/// tree for the same position gives.
pub proof fn lemma_kept_as_fresh(t: Tree, depth: nat, alpha: int, beta: int, side: Color)
    requires
        well_formed(t),
        depth > 0,
        within(t, (depth - 1) as nat),
    ensures
        search(t, depth, alpha, beta, side).value == search(
            fresh(t.position, side),
            depth,
            alpha,
            beta,
            side,
        ).value,
        search(t, depth, alpha, beta, side).best == search(
            fresh(t.position, side),
            depth,
            alpha,
            beta,
            side,
        ).best,
    decreases depth, 0nat,
{
    if status_of(t.position) == Status::Ongoing {
        let cs = children_of(t, side);
        let fs = offspring(t.position, side);
        assert(children_of(fresh(t.position, side), side) == fs);
        assert forall|i: int| 0 <= i < cs.len() implies same_to_search(
            (#[trigger] cs[i]).1,
            fs[i].1,
            (depth - 1) as nat,
            side,
        ) by {
            if t.children.is_some() {
                assert(fs[i].1 == fresh(successors(t.position)[i].1, side));
            }
        }
        lemma_scan_kept_as_fresh(
            cs,
            fs,
            cs.len(),
            (depth - 1) as nat,
            alpha,
            beta,
            side,
            maximizing(t.position, side),
        );
    }
}

/// The kept tree `kept` and the tree `made` are the same to a search of
/// `depth` plies: they are equal, or `made` is fresh for the position of
/// `kept`, which is well formed and has no node `depth` plies below its root.
pub open spec fn same_to_search(kept: Tree, made: Tree, depth: nat, side: Color) -> bool {
    kept == made || (depth > 0 && well_formed(kept) && within(kept, (depth - 1) as nat) && made
        == fresh(kept.position, side))
}

/// The walk over kept children gives what the walk over fresh children for
/// the same positions gives.
pub proof fn lemma_scan_kept_as_fresh(
    cs: Seq<(Move, Tree)>,
    fs: Seq<(Move, Tree)>,
    upto: nat,
    depth: nat,
    alpha: int,
    beta: int,
    side: Color,
    maximize: bool,
)
    requires
        upto <= cs.len(),
        cs.len() == fs.len(),
        forall|i: int|
            0 <= i < cs.len() ==> same_to_search((#[trigger] cs[i]).1, fs[i].1, depth, side),
    ensures
        ({
            let kept = scan(cs, upto, depth, alpha, beta, side, maximize);
            let made = scan(fs, upto, depth, alpha, beta, side, maximize);
            &&& kept.value == made.value
            &&& kept.best == made.best
            &&& kept.alpha == made.alpha
            &&& kept.beta == made.beta
            &&& kept.cut == made.cut
        }),
    decreases depth, upto,
{
    if upto > 0 {
        let before = scan(cs, (upto - 1) as nat, depth, alpha, beta, side, maximize);
        lemma_scan_kept_as_fresh(cs, fs, (upto - 1) as nat, depth, alpha, beta, side, maximize);
        if !before.cut {
            assert(same_to_search(cs[upto - 1].1, fs[upto - 1].1, depth, side));
            if cs[upto - 1].1 != fs[upto - 1].1 {
                lemma_kept_as_fresh(cs[upto - 1].1, depth, before.alpha, before.beta, side);
            }
        }
    }
}

/// Reuse from one turn to the next. Let a fresh tree for the position `text`
/// be searched to `depth` plies, as the tree of a move at the root is, and
/// let the game go on to one of its children. A search of that child to the
/// same depth gives the score and the choice that it would give on a tree
/// made from scratch for the position of the child.
pub proof fn lemma_reply_as_fresh(
    text: Seq<char>,
    depth: nat,
    side: Color,
    alpha: int,
    beta: int,
    reply: int,
    next_alpha: int,
    next_beta: int,
)
    requires
        playable(text),
        depth > 0,
        search(fresh(text, side), depth, alpha, beta, side).tree.children.is_some(),
        0 <= reply < search(
            fresh(text, side),
            depth,
            alpha,
            beta,
            side,
        ).tree.children.unwrap().len(),
    ensures
        ({
            let kept = search(fresh(text, side), depth, alpha, beta, side).tree;
            let child = kept.children.unwrap()[reply].1;
            let again = search(child, depth, next_alpha, next_beta, side);
            let scratch = search(fresh(child.position, side), depth, next_alpha, next_beta, side);
            &&& again.value == scratch.value
            &&& again.best == scratch.best
        }),
{
    let kept = search(fresh(text, side), depth, alpha, beta, side).tree;
    lemma_static_score_in_range(text, side);
    lemma_search_well_formed(fresh(text, side), depth, alpha, beta, side);
    lemma_search_height(fresh(text, side), depth, alpha, beta, side, 0);
    let child = kept.children.unwrap()[reply].1;
    assert(within(child, (depth - 1) as nat));
    assert(well_formed(child));
    lemma_kept_as_fresh(child, depth, next_alpha, next_beta, side);
}

} // verus!
