//! What pruning may and may not change.
//!
//! The search with a window visits fewer children than plain minimax. This
//! module proves that it still finds the minimax score whenever that score
//! lies inside the window, and a bound on it otherwise; that with the widest
//! window it finds the minimax score always; and that the children it skips
//! are left exactly as they were.

use vstd::prelude::*;
use crate::eval::{LOSS, WIN};
use crate::position::{status_of, Color, Move, Status};
use crate::search::{
    best_of,
    lemma_scan_stable,
    lemma_search_scores_tree,
    maximizing,
    minimax,
    scan,
    search,
    worst,
};
use crate::root::{first_max, lemma_first_max, root_choice, verdicts};
use crate::tree::{children_of, lemma_offspring_well_formed, well_formed, Tree};

verus! {

/// Every score that a search of `t` to `depth` plies can read lies between
/// the forced loss and the forced win.
pub open spec fn in_range(t: Tree, depth: nat, side: Color) -> bool
    decreases depth,
{
    if status_of(t.position) != Status::Ongoing {
        true
    } else if depth == 0 {
        LOSS <= t.score <= WIN
    } else {
        forall|i: int|
            0 <= i < children_of(t, side).len() ==> in_range(
                (#[trigger] children_of(t, side)[i]).1,
                (depth - 1) as nat,
                side,
            )
    }
}

/// Where the scores are in range, so is the minimax score.
pub proof fn lemma_minimax_in_range(t: Tree, depth: nat, side: Color)
    requires
        in_range(t, depth, side),
    ensures
        LOSS <= minimax(t, depth, side) <= WIN,
    decreases depth, 0nat,
{
    if status_of(t.position) == Status::Ongoing && depth > 0 {
        let cs = children_of(t, side);
        lemma_best_of_in_range(
            cs,
            cs.len(),
            (depth - 1) as nat,
            side,
            maximizing(t.position, side),
        );
    }
}

/// Where the scores of the children are in range, so is the best of them.
pub proof fn lemma_best_of_in_range(
    cs: Seq<(Move, Tree)>,
    upto: nat,
    depth: nat,
    side: Color,
    maximize: bool,
)
    requires
        upto <= cs.len(),
        forall|i: int| 0 <= i < cs.len() ==> in_range((#[trigger] cs[i]).1, depth, side),
    ensures
        LOSS <= best_of(cs, upto, depth, side, maximize) <= WIN,
    decreases depth, upto,
{
    if upto > 0 {
        lemma_best_of_in_range(cs, (upto - 1) as nat, depth, side, maximize);
        assert(in_range(cs[upto - 1].1, depth, side));
        lemma_minimax_in_range(cs[upto - 1].1, depth, side);
    }
}

/// The search with a window against plain minimax. A score strictly inside
/// the window is the minimax score. A score at or below `alpha` is at least
/// the minimax score, and a score at or above `beta` is at most the minimax
/// score.
pub proof fn lemma_search_bounds(t: Tree, depth: nat, alpha: int, beta: int, side: Color)
    requires
        alpha < beta,
    ensures
        ({
            let v = search(t, depth, alpha, beta, side).value;
            let m = minimax(t, depth, side);
            &&& alpha < v < beta ==> v == m
            &&& v <= alpha ==> m <= v
            &&& v >= beta ==> m >= v
        }),
    decreases depth, 0nat,
{
    if status_of(t.position) == Status::Ongoing && depth > 0 {
        let cs = children_of(t, side);
        lemma_scan_bounds(
            cs,
            cs.len(),
            (depth - 1) as nat,
            alpha,
            beta,
            side,
            maximizing(t.position, side),
        );
    }
}

/// The walk over the children against the best minimax score among them:
/// the same three bounds as for a node, and how the window stands after the
/// walk.
pub proof fn lemma_scan_bounds(
    cs: Seq<(Move, Tree)>,
    upto: nat,
    depth: nat,
    alpha: int,
    beta: int,
    side: Color,
    maximize: bool,
)
    requires
        alpha < beta,
        upto <= cs.len(),
    ensures
        ({
            let s = scan(cs, upto, depth, alpha, beta, side, maximize);
            let m = best_of(cs, upto, depth, side, maximize);
            &&& alpha < s.value < beta ==> s.value == m
            &&& s.value <= alpha ==> m <= s.value
            &&& s.value >= beta ==> m >= s.value
            &&& upto == 0 ==> s.value == worst(maximize) && s.alpha == alpha && s.beta == beta
            &&& s.cut <==> upto > 0 && s.alpha >= s.beta
            &&& maximize ==> s.beta == beta && s.alpha >= alpha
            &&& maximize && upto > 0 ==> s.alpha == if s.value > alpha {
                s.value
            } else {
                alpha
            }
            &&& !maximize ==> s.alpha == alpha && s.beta <= beta
            &&& !maximize && upto > 0 ==> s.beta == if s.value < beta {
                s.value
            } else {
                beta
            }
        }),
    decreases depth, upto,
{
    if upto > 0 {
        let before = scan(cs, (upto - 1) as nat, depth, alpha, beta, side, maximize);
        lemma_scan_bounds(cs, (upto - 1) as nat, depth, alpha, beta, side, maximize);
        if !before.cut {
            lemma_search_bounds(cs[upto - 1].1, depth, before.alpha, before.beta, side);
        }
    }
}

/// In a well-formed tree every score that a search can read is in range:
/// those that the tree holds, and the static scores of the nodes that the
/// search makes.
pub proof fn lemma_well_formed_in_range(t: Tree, depth: nat, side: Color)
    requires
        well_formed(t),
    ensures
        in_range(t, depth, side),
    decreases depth,
{
    if status_of(t.position) == Status::Ongoing && depth > 0 {
        lemma_offspring_well_formed(t, side);
        assert forall|i: int| 0 <= i < children_of(t, side).len() implies in_range(
            (#[trigger] children_of(t, side)[i]).1,
            (depth - 1) as nat,
            side,
        ) by {
            lemma_well_formed_in_range(children_of(t, side)[i].1, (depth - 1) as nat, side);
        }
    }
}

/// Pruning does not change the score: searched with the widest window, a
/// well-formed tree gets exactly its minimax score.
pub proof fn lemma_pruning_keeps_score(t: Tree, depth: nat, side: Color)
    requires
        well_formed(t),
    ensures
        search(t, depth, LOSS as int, WIN as int, side).value == minimax(t, depth, side),
{
    lemma_well_formed_in_range(t, depth, side);
    lemma_minimax_in_range(t, depth, side);
    lemma_search_bounds(t, depth, LOSS as int, WIN as int, side);
}

/// The walk over the first `upto` children touches none of the others.
pub proof fn lemma_scan_touches_prefix(
    cs: Seq<(Move, Tree)>,
    upto: nat,
    depth: nat,
    alpha: int,
    beta: int,
    side: Color,
    maximize: bool,
)
    requires
        upto <= cs.len(),
    ensures
        scan(cs, upto, depth, alpha, beta, side, maximize).children.len() == cs.len(),
        forall|j: int|
            upto <= j < cs.len() ==> scan(cs, upto, depth, alpha, beta, side, maximize).children[j]
                == cs[j],
    decreases upto,
{
    if upto > 0 {
        lemma_scan_touches_prefix(cs, (upto - 1) as nat, depth, alpha, beta, side, maximize);
    }
}

/// A cutoff spares the rest: once the window has closed after `upto`
/// children, the whole walk leaves every later child exactly as it was, so
/// that nothing below it is expanded or scored.
pub proof fn lemma_cutoff_spares_rest(
    cs: Seq<(Move, Tree)>,
    upto: nat,
    depth: nat,
    alpha: int,
    beta: int,
    side: Color,
    maximize: bool,
)
    requires
        upto <= cs.len(),
        scan(cs, upto, depth, alpha, beta, side, maximize).cut,
    ensures
        scan(cs, cs.len(), depth, alpha, beta, side, maximize) == scan(
            cs,
            upto,
            depth,
            alpha,
            beta,
            side,
            maximize,
        ),
        forall|j: int|
            upto <= j < cs.len() ==> scan(
                cs,
                cs.len(),
                depth,
                alpha,
                beta,
                side,
                maximize,
            ).children[j] == cs[j],
{
    lemma_scan_stable(cs, upto, cs.len(), depth, alpha, beta, side, maximize);
    lemma_scan_touches_prefix(cs, upto, depth, alpha, beta, side, maximize);
}

/// The move chosen at the root is the best by plain minimax. Where several
/// moves lead on from the root of a well-formed tree, no move has a greater
/// minimax score than the chosen one, and every move before it has a smaller
/// one.
pub proof fn lemma_choice_is_best(t: Tree, depth: nat, side: Color)
    requires
        well_formed(t),
        children_of(t, side).len() > 1,
    ensures
        ({
            let cs = children_of(t, side);
            let best = first_max(verdicts(cs, depth, side), cs.len());
            &&& 0 <= best < cs.len()
            &&& root_choice(t, depth, side).0 == cs[best].0
            &&& root_choice(t, depth, side).1.score == minimax(cs[best].1, depth, side)
            &&& forall|j: int|
                0 <= j < cs.len() ==> minimax((#[trigger] cs[j]).1, depth, side) <= minimax(
                    cs[best].1,
                    depth,
                    side,
                )
            &&& forall|j: int|
                0 <= j < best ==> minimax((#[trigger] cs[j]).1, depth, side) < minimax(
                    cs[best].1,
                    depth,
                    side,
                )
        }),
{
    let cs = children_of(t, side);
    let scores = verdicts(cs, depth, side);
    lemma_offspring_well_formed(t, side);
    lemma_first_max(scores, cs.len());
    let best = first_max(scores, cs.len());
    assert forall|j: int| 0 <= j < cs.len() implies scores[j] == minimax(
        (#[trigger] cs[j]).1,
        depth,
        side,
    ) by {
        lemma_pruning_keeps_score(cs[j].1, depth, side);
    }
    assert(scores[best] == minimax(cs[best].1, depth, side));
    assert forall|j: int| 0 <= j < cs.len() implies minimax((#[trigger] cs[j]).1, depth, side)
        <= minimax(cs[best].1, depth, side) by {
        assert(scores[j] <= scores[best]);
    }
    assert forall|j: int| 0 <= j < best implies minimax((#[trigger] cs[j]).1, depth, side)
        < minimax(cs[best].1, depth, side) by {
        assert(scores[j] < scores[best]);
    }
    assert(search(cs[best].1, depth, LOSS as int, WIN as int, side).tree.score == scores[best]) by {
        lemma_search_scores_tree(cs[best].1, depth, LOSS as int, WIN as int, side);
    }
}

} // verus!
