//! Choosing a move at the root.
//!
//! Every move that leads on from the root is searched on its own, to the same
//! depth and with the widest window, each search owning the subtree of its
//! move; the searches run side by side on rayon's thread pool. The move with
//! the greatest score is played, the first such move in the order of the
//! moves, and its subtree is what is kept for the next turn.

use vstd::prelude::*;
use crate::eval::{Score, LOSS, WIN};
use crate::position::{legal_moves_of, mover_of, playable, position_after, Color, Move};
use crate::search::search;
use crate::tree::{
    children_of,
    forest,
    lemma_offspring_well_formed,
    lemma_successors_are_legal,
    successors,
    well_formed,
    SearchNode,
    Tree,
};
use rayon::iter::{IntoParallelIterator, ParallelIterator};

verus! {

/// Why no move was chosen.
#[derive(Clone, Copy, Debug, PartialEq, Eq, Structural)]
pub enum SearchError {
    /// It is not the turn of the side that the search plays for.
    NotToMove,
    /// No move leads on from the position.
    NoMove,
    /// The position is not in the tree that was kept.
    NotInCache,
}

/// The number of the first greatest among the first `upto` scores.
pub open spec fn first_max(scores: Seq<int>, upto: nat) -> int
    decreases upto,
{
    if upto <= 1 {
        0
    } else {
        let before = first_max(scores, (upto - 1) as nat);
        if scores[upto - 1] > scores[before] {
            upto - 1
        } else {
            before
        }
    }
}

/// The first greatest of some scores is one of them, none is greater, and
/// none before it is as great.
pub proof fn lemma_first_max(scores: Seq<int>, upto: nat)
    requires
        0 < upto <= scores.len(),
    ensures
        0 <= first_max(scores, upto) < upto,
        forall|j: int| 0 <= j < upto ==> #[trigger] scores[j] <= scores[first_max(scores, upto)],
        forall|j: int|
            0 <= j < first_max(scores, upto) ==> #[trigger] scores[j] < scores[first_max(
                scores,
                upto,
            )],
    decreases upto,
{
    if upto > 1 {
        lemma_first_max(scores, (upto - 1) as nat);
    }
}

/// The scores that the children `cs` get when each is searched to `depth`
/// plies with the widest window.
pub open spec fn verdicts(cs: Seq<(Move, Tree)>, depth: nat, side: Color) -> Seq<int> {
    Seq::new(cs.len(), |i: int| search(cs[i].1, depth, LOSS as int, WIN as int, side).value)
}

/// The move chosen at the root `t`, with the subtree kept for it. A single
/// move is chosen as it stands, its subtree untouched. Among several, each
/// searched to `depth` plies, the first with the greatest score is chosen,
/// with its subtree as the search left it.
pub open spec fn root_choice(t: Tree, depth: nat, side: Color) -> (Move, Tree) {
    let cs = children_of(t, side);
    if cs.len() == 1 {
        cs[0]
    } else {
        let best = first_max(verdicts(cs, depth, side), cs.len());
        (cs[best].0, search(cs[best].1, depth, LOSS as int, WIN as int, side).tree)
    }
}

/// The move chosen at the root is legal, and the subtree kept with it is for
/// the position that the move leads to.
pub proof fn lemma_choice_is_legal(t: Tree, depth: nat, side: Color)
    requires
        well_formed(t),
        children_of(t, side).len() > 0,
    ensures
        legal_moves_of(t.position).contains(root_choice(t, depth, side).0),
        root_choice(t, depth, side).1.position == position_after(
            t.position,
            root_choice(t, depth, side).0,
        ),
        playable(root_choice(t, depth, side).1.position),
{
    let cs = children_of(t, side);
    lemma_offspring_well_formed(t, side);
    let best = if cs.len() == 1 {
        0
    } else {
        first_max(verdicts(cs, depth, side), cs.len())
    };
    if cs.len() > 1 {
        lemma_first_max(verdicts(cs, depth, side), cs.len());
    }
    assert(cs[best].0 == successors(t.position)[best].0);
    lemma_successors_are_legal(t.position, legal_moves_of(t.position).len(), best);
}

/// The number of the first greatest score.
pub fn select_best(scores: &Vec<Score>) -> (best: usize)
    requires
        scores.len() > 0,
    ensures
        best == first_max(scores@.map_values(|s: Score| s as int), scores@.len()),
        best < scores.len(),
        forall|j: int| 0 <= j < scores.len() ==> #[trigger] scores@[j] <= scores@[best as int],
        forall|j: int| 0 <= j < best ==> #[trigger] scores@[j] < scores@[best as int],
{
    let ghost all = scores@.map_values(|s: Score| s as int);
    let mut best: usize = 0;
    let mut i: usize = 1;
    while i < scores.len()
        invariant
            1 <= i <= scores.len(),
            all == scores@.map_values(|s: Score| s as int),
            best == first_max(all, i as nat),
            best < i,
        decreases scores.len() - i,
    {
        if scores[i] > scores[best] {
            best = i;
        }
        i += 1;
    }
    proof {
        lemma_first_max(all, scores@.len());
        assert forall|j: int| 0 <= j < scores.len() implies #[trigger] scores@[j]
            <= scores@[best as int] by {
            assert(all[j] <= all[best as int]);
        }
        assert forall|j: int| 0 <= j < best implies #[trigger] scores@[j]
            < scores@[best as int] by {
            assert(all[j] < all[best as int]);
        }
    }
    best
}

/// Chooses the move to play at `root` for `side` and hands it out with the
/// subtree below it, which is all that is kept of the tree.
///
/// No move is chosen where `side` is not to move, or where no move leads on
/// from the root. A single move is returned at once, without any search.
/// Otherwise every move is searched to `depth` plies and the first with the
/// greatest score is returned.
pub fn best_move(root: SearchNode, depth: usize, side: Color) -> (made: Result<
    (Move, SearchNode),
    SearchError,
>)
    requires
        root.wf(),
    ensures
        mover_of(root@.position) != side ==> made == Err::<(Move, SearchNode), SearchError>(
            SearchError::NotToMove,
        ),
        mover_of(root@.position) == side && children_of(root@, side).len() == 0 ==> made == Err::<
            (Move, SearchNode),
            SearchError,
        >(SearchError::NoMove),
        mover_of(root@.position) == side && children_of(root@, side).len() > 0 ==> made.is_ok(),
        made matches Ok(chosen) ==> {
            &&& (chosen.0, chosen.1@) == root_choice(root@, depth as nat, side)
            &&& chosen.1.wf()
        },
        made matches Ok(chosen) ==> children_of(root@, side).len() == 1 ==> (chosen.0, chosen.1@)
            == children_of(root@, side)[0],
{
    proof {
        root.lemma_view();
        lemma_offspring_well_formed(root@, side);
    }
    if root.position.side_to_move() != side {
        return Err(SearchError::NotToMove);
    }
    let ghost t0 = root@;
    let mut root = root;
    root.expand(side);
    proof {
        root.lemma_view();
    }
    let mut nodes = match root.children {
        Some(nodes) => nodes,
        None => Vec::new(),
    };
    let ghost cs = children_of(t0, side);
    proof {
        assert(forest(nodes@) == cs);
        assert forall|k: int| 0 <= k < nodes.len() implies (#[trigger] nodes@[k]).1.wf() by {
            assert(forest(nodes@)[k] == cs[k]);
        }
    }
    if nodes.len() == 0 {
        return Err(SearchError::NoMove);
    }
    if nodes.len() == 1 {
        let (mv, node) = nodes.swap_remove(0);
        return Ok((mv, node));
    }
    let search_one = |child: (Move, SearchNode)| -> (found: (Score, Move, SearchNode))
        requires
            child.1.wf(),
        ensures
            found.0 == search(child.1@, depth as nat, LOSS as int, WIN as int, side).value,
            found.1 == child.0,
            found.2@ == search(child.1@, depth as nat, LOSS as int, WIN as int, side).tree,
            found.2.wf(),
        {
            let (mv, node) = child;
            let mut node = node;
            let score = node.alpha_beta(depth, LOSS, WIN, side).0;
            (score, mv, node)
        };
    let mut searched = map_in_parallel(nodes, search_one);
    let mut scores: Vec<Score> = Vec::new();
    let mut i: usize = 0;
    while i < searched.len()
        invariant
            0 <= i <= searched.len(),
            searched.len() == cs.len(),
            scores.len() == i,
            forall|k: int|
                0 <= k < searched.len() ==> (#[trigger] searched@[k]).0 == verdicts(
                    cs,
                    depth as nat,
                    side,
                )[k],
            forall|k: int| 0 <= k < i ==> scores@[k] == verdicts(cs, depth as nat, side)[k],
        decreases searched.len() - i,
    {
        scores.push(searched[i].0);
        i += 1;
    }
    assert(scores@.map_values(|s: Score| s as int) =~= verdicts(cs, depth as nat, side));
    let best = select_best(&scores);
    let (_, mv, node) = searched.swap_remove(best);
    Ok((mv, node))
}

/// Calls rayon's `into_par_iter`, `map` and `collect`, which hand each item
/// to `work` exactly once, on whatever thread is free, and gather the results
/// in the order of the items.
#[verifier::external_body]
fn map_in_parallel<T: Send, U: Send, F: Fn(T) -> U + Send + Sync>(
    items: Vec<T>,
    work: F,
) -> (done: Vec<U>)
    requires
        forall|i: int| 0 <= i < items.len() ==> work.requires((#[trigger] items@[i],)),
    ensures
        done.len() == items.len(),
        forall|i: int| 0 <= i < items.len() ==> work.ensures((items@[i],), #[trigger] done@[i]),
{
    items.into_par_iter().map(work).collect()
}

} // verus!
