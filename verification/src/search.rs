//! Depth-bounded minimax search with alpha-beta pruning.
//!
//! The search plays for one side, fixed for the whole call. At a node where
//! that side is to move it takes the greatest score among the children, at
//! any other node the least. A node whose game is over is scored by how it
//! ended; a node at depth 0 keeps the score it has. While it walks the
//! children of a node the search narrows a window of scores between `alpha`
//! and `beta`, and it leaves the rest of the children alone as soon as the
//! window is empty.
//!
//! What the search returns, and what it leaves behind in the tree, is
//! defined here by [`search`] and [`scan`]; [`SearchNode::alpha_beta`]
//! computes exactly that.

use vstd::prelude::*;
use crate::eval::{Score, LOSS, WIN};
use crate::position::{attacker_of, mover_of, status_of, Color, Move, Status};
use crate::pruning::{lemma_pruning_keeps_score, lemma_search_bounds};
use crate::tree::{
    children_of,
    forest,
    lemma_offspring_well_formed,
    well_formed,
    SearchNode,
    Tree,
};

verus! {

/// The score of a position whose game is over: nothing for a stalemate, a
/// win where `side` gives the mate, a loss where it is mated.
pub open spec fn terminal_score(text: Seq<char>, side: Color) -> int {
    match status_of(text) {
        Status::Checkmate => if attacker_of(text) == Some(side) {
            WIN as int
        } else {
            LOSS as int
        },
        _ => 0,
    }
}

/// Whether the search takes the greatest score at a node for `text`: it does
/// where the side it plays for is to move.
pub open spec fn maximizing(text: Seq<char>, side: Color) -> bool {
    mover_of(text) == side
}

/// Where the walk over the children of a node stands.
pub struct Scan {
    /// The best score found so far.
    pub value: int,
    /// The child that gave it, if any child has bettered the starting score.
    pub best: Option<int>,
    /// The lower end of the window.
    pub alpha: int,
    /// The upper end of the window.
    pub beta: int,
    /// Whether the window has closed, so that no further child is visited.
    pub cut: bool,
    /// The children, those visited so far as the search left them.
    pub children: Seq<(Move, Tree)>,
}

/// What the search of a node gives.
pub struct Outcome {
    /// The score of the node.
    pub value: int,
    /// The child that the score comes from, if any.
    pub best: Option<int>,
    /// The tree below the node as the search leaves it.
    pub tree: Tree,
}

/// The score that the walk over the children starts from: the worst there is
/// for the side that chooses.
pub open spec fn worst(maximize: bool) -> int {
    if maximize {
        LOSS as int
    } else {
        WIN as int
    }
}

/// The search of the tree `t` to `depth` plies with the window from `alpha`
/// to `beta`, for `side`.
pub open spec fn search(t: Tree, depth: nat, alpha: int, beta: int, side: Color) -> Outcome
    decreases depth, 0nat,
{
    if status_of(t.position) != Status::Ongoing {
        let value = terminal_score(t.position, side);
        Outcome {
            value,
            best: None,
            tree: Tree { position: t.position, score: value, children: t.children },
        }
    } else if depth == 0 {
        Outcome { value: t.score, best: None, tree: t }
    } else {
        let cs = children_of(t, side);
        let end = scan(
            cs,
            cs.len(),
            (depth - 1) as nat,
            alpha,
            beta,
            side,
            maximizing(t.position, side),
        );
        Outcome {
            value: end.value,
            best: end.best,
            tree: Tree { position: t.position, score: end.value, children: Some(end.children) },
        }
    }
}

/// The walk over the first `upto` of the children `cs`, each searched to
/// `depth` plies, for a node whose window is from `alpha` to `beta`. A child
/// is visited unless the window closed before it; it betters the score only
/// if its own score is strictly better, so that among equal children the
/// first one is kept.
pub open spec fn scan(
    cs: Seq<(Move, Tree)>,
    upto: nat,
    depth: nat,
    alpha: int,
    beta: int,
    side: Color,
    maximize: bool,
) -> Scan
    decreases depth, upto,
{
    if upto == 0 || upto > cs.len() {
        Scan { value: worst(maximize), best: None, alpha, beta, cut: false, children: cs }
    } else {
        let before = scan(cs, (upto - 1) as nat, depth, alpha, beta, side, maximize);
        if before.cut {
            before
        } else {
            let i = upto - 1;
            let found = search(cs[i].1, depth, before.alpha, before.beta, side);
            let better = if maximize {
                found.value > before.value
            } else {
                found.value < before.value
            };
            let value = if better {
                found.value
            } else {
                before.value
            };
            let alpha = if maximize && value > before.alpha {
                value
            } else {
                before.alpha
            };
            let beta = if !maximize && value < before.beta {
                value
            } else {
                before.beta
            };
            Scan {
                value,
                best: if better {
                    Some(i)
                } else {
                    before.best
                },
                alpha,
                beta,
                cut: alpha >= beta,
                children: before.children.update(i, (cs[i].0, found.tree)),
            }
        }
    }
}

/// Plain minimax: the score of `t` searched to `depth` plies for `side`,
/// with every child visited.
pub open spec fn minimax(t: Tree, depth: nat, side: Color) -> int
    decreases depth, 0nat,
{
    if status_of(t.position) != Status::Ongoing {
        terminal_score(t.position, side)
    } else if depth == 0 {
        t.score
    } else {
        let cs = children_of(t, side);
        best_of(cs, cs.len(), (depth - 1) as nat, side, maximizing(t.position, side))
    }
}

/// The best minimax score among the first `upto` of the children `cs`, each
/// searched to `depth` plies: the greatest if `maximize`, else the least.
pub open spec fn best_of(
    cs: Seq<(Move, Tree)>,
    upto: nat,
    depth: nat,
    side: Color,
    maximize: bool,
) -> int
    decreases depth, upto,
{
    if upto == 0 || upto > cs.len() {
        worst(maximize)
    } else {
        let before = best_of(cs, (upto - 1) as nat, depth, side, maximize);
        let found = minimax(cs[upto - 1].1, depth, side);
        if maximize {
            if found > before {
                found
            } else {
                before
            }
        } else {
            if found < before {
                found
            } else {
                before
            }
        }
    }
}

/// Once the window has closed, visiting more children changes nothing.
pub proof fn lemma_scan_stable(
    cs: Seq<(Move, Tree)>,
    upto: nat,
    later: nat,
    depth: nat,
    alpha: int,
    beta: int,
    side: Color,
    maximize: bool,
)
    requires
        upto <= later <= cs.len(),
        scan(cs, upto, depth, alpha, beta, side, maximize).cut,
    ensures
        scan(cs, later, depth, alpha, beta, side, maximize) == scan(
            cs,
            upto,
            depth,
            alpha,
            beta,
            side,
            maximize,
        ),
    decreases later,
{
    if later > upto {
        lemma_scan_stable(cs, upto, (later - 1) as nat, depth, alpha, beta, side, maximize);
    }
}

impl SearchNode {
    /// Searches the tree below this node to `depth` plies for `side`, with the
    /// window from `alpha` to `beta`, and returns the score of the node and
    /// the number of the child that the score comes from.
    ///
    /// A node whose game is over is scored by how the game ended. At depth 0
    /// a node keeps its score. Any other node is expanded if need be, its
    /// children are searched one ply less deep in their order, and the node
    /// takes the best of their scores; the children after the one that closes
    /// the window are left as they were. Every node searched ends up with the
    /// score that its search returned.
    ///
    /// A score strictly inside the window is the minimax score of the node; a
    /// score at or beyond an end of the window bounds the minimax score from
    /// that side. With the widest window the score is the minimax score.
    pub fn alpha_beta(&mut self, depth: usize, alpha: Score, beta: Score, side: Color) -> (found: (
        Score,
        Option<usize>,
    ))
        requires
            old(self).wf(),
        ensures
            final(self).wf(),
            final(self)@ == search(old(self)@, depth as nat, alpha as int, beta as int, side).tree,
            found.0 == search(old(self)@, depth as nat, alpha as int, beta as int, side).value,
            found.1.is_some() == search(
                old(self)@,
                depth as nat,
                alpha as int,
                beta as int,
                side,
            ).best.is_some(),
            found.1 matches Some(i) ==> search(
                old(self)@,
                depth as nat,
                alpha as int,
                beta as int,
                side,
            ).best == Some(i as int),
            alpha < beta ==> {
                let plain = minimax(old(self)@, depth as nat, side);
                &&& alpha < found.0 < beta ==> found.0 == plain
                &&& found.0 <= alpha ==> plain <= found.0
                &&& found.0 >= beta ==> plain >= found.0
            },
            alpha == LOSS && beta == WIN ==> found.0 == minimax(old(self)@, depth as nat, side),
            status_of(old(self)@.position) == Status::Stalemate ==> found.0 == 0,
            status_of(old(self)@.position) == Status::Checkmate ==> found.0 == if attacker_of(
                old(self)@.position,
            ) == Some(side) {
                WIN
            } else {
                LOSS
            },
        decreases depth,
    {
        let ghost t0 = self@;
        proof {
            self.lemma_view();
            if alpha < beta {
                lemma_search_bounds(t0, depth as nat, alpha as int, beta as int, side);
            }
            lemma_pruning_keeps_score(t0, depth as nat, side);
        }
        let status = self.position.status();
        if status != Status::Ongoing {
            let value = match status {
                Status::Checkmate => if self.position.attacker() == Some(side) {
                    WIN
                } else {
                    LOSS
                },
                _ => 0,
            };
            self.score = value;
            proof {
                self.lemma_view();
            }
            return (value, None);
        }
        if depth == 0 {
            return (self.score, None);
        }
        self.expand(side);
        proof {
            self.lemma_view();
            lemma_offspring_well_formed(t0, side);
        }
        let maximize = self.position.side_to_move() == side;
        let mut nodes = self.children.take().unwrap();
        let ghost cs = forest(nodes@);
        let mut value = if maximize {
            LOSS
        } else {
            WIN
        };
        let mut best: Option<usize> = None;
        let mut a = alpha;
        let mut b = beta;
        let mut cut = false;
        let mut i: usize = 0;
        while i < nodes.len() && !cut
            invariant
                depth > 0,
                0 <= i <= nodes.len(),
                nodes.len() == cs.len(),
                LOSS <= value <= WIN,
                scan(cs, i as nat, (depth - 1) as nat, alpha as int, beta as int, side, maximize)
                    == (Scan {
                    value: value as int,
                    best: match best {
                        Some(k) => Some(k as int),
                        None => None,
                    },
                    alpha: a as int,
                    beta: b as int,
                    cut,
                    children: forest(nodes@),
                }),
                forall|k: int|
                    0 <= k < nodes.len() ==> {
                        &&& (#[trigger] nodes@[k]).1.wf()
                        &&& nodes@[k].0 == cs[k].0
                        &&& nodes@[k].1@.position == cs[k].1.position
                    },
                forall|k: int| i <= k < nodes.len() ==> (#[trigger] nodes@[k]).1@ == cs[k].1,
            decreases nodes.len() - i,
        {
            let ghost before = nodes@;
            let ghost child = nodes@[i as int].1@;
            let reply = nodes[i].1.alpha_beta(depth - 1, a, b, side);
            proof {
                lemma_search_scores_tree(child, (depth - 1) as nat, a as int, b as int, side);
                assert(forest(nodes@) =~= forest(before).update(
                    i as int,
                    (
                        cs[i as int].0,
                        search(child, (depth - 1) as nat, a as int, b as int, side).tree,
                    ),
                ));
            }
            let better = if maximize {
                reply.0 > value
            } else {
                reply.0 < value
            };
            if better {
                value = reply.0;
                best = Some(i);
            }
            if maximize && value > a {
                a = value;
            }
            if !maximize && value < b {
                b = value;
            }
            cut = a >= b;
            i += 1;
        }
        proof {
            if cut {
                lemma_scan_stable(
                    cs,
                    i as nat,
                    cs.len(),
                    (depth - 1) as nat,
                    alpha as int,
                    beta as int,
                    side,
                    maximize,
                );
            }
        }
        self.children = Some(nodes);
        self.score = value;
        proof {
            self.lemma_view();
        }
        (value, best)
    }
}

/// Every node searched ends up with the score that its search returned, and
/// keeps its position.
pub proof fn lemma_search_scores_tree(t: Tree, depth: nat, alpha: int, beta: int, side: Color)
    ensures
        search(t, depth, alpha, beta, side).tree.score == search(t, depth, alpha, beta, side).value,
        search(t, depth, alpha, beta, side).tree.position == t.position,
{
}

/// A search keeps the tree to the rules: a well-formed tree is well formed
/// after it.
pub proof fn lemma_search_well_formed(t: Tree, depth: nat, alpha: int, beta: int, side: Color)
    requires
        well_formed(t),
    ensures
        well_formed(search(t, depth, alpha, beta, side).tree),
    decreases depth, 0nat,
{
    if status_of(t.position) == Status::Ongoing && depth > 0 {
        let cs = children_of(t, side);
        lemma_offspring_well_formed(t, side);
        lemma_scan_well_formed(
            cs,
            cs.len(),
            (depth - 1) as nat,
            alpha,
            beta,
            side,
            maximizing(t.position, side),
        );
    }
}

/// The walk over well-formed children leaves them well formed, each with the
/// move and the position it had.
pub proof fn lemma_scan_well_formed(
    cs: Seq<(Move, Tree)>,
    upto: nat,
    depth: nat,
    alpha: int,
    beta: int,
    side: Color,
    maximize: bool,
)
    requires
        upto <= cs.len(),
        forall|i: int| 0 <= i < cs.len() ==> well_formed((#[trigger] cs[i]).1),
    ensures
        scan(cs, upto, depth, alpha, beta, side, maximize).children.len() == cs.len(),
        LOSS <= scan(cs, upto, depth, alpha, beta, side, maximize).value <= WIN,
        forall|i: int|
            0 <= i < cs.len() ==> {
                let after = #[trigger] scan(
                    cs,
                    upto,
                    depth,
                    alpha,
                    beta,
                    side,
                    maximize,
                ).children[i];
                &&& after.0 == cs[i].0
                &&& after.1.position == cs[i].1.position
                &&& well_formed(after.1)
            },
    decreases depth, upto,
{
    if upto > 0 {
        let before = scan(cs, (upto - 1) as nat, depth, alpha, beta, side, maximize);
        lemma_scan_well_formed(cs, (upto - 1) as nat, depth, alpha, beta, side, maximize);
        if !before.cut {
            lemma_search_well_formed(cs[upto - 1].1, depth, before.alpha, before.beta, side);
            lemma_search_scores_tree(cs[upto - 1].1, depth, before.alpha, before.beta, side);
        }
    }
}

} // verus!
