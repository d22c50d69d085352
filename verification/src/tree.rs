//! The tree of positions that the search explores and keeps between turns.
//!
//! A node owns a position, a score and, once it has been expanded, one child
//! for every move that leads on from its position. Nodes are expanded only
//! when a search needs their children, and a child starts out with the static
//! score of its position.

use vstd::prelude::*;
use crate::eval::{lemma_static_score_in_range, score_for, static_score, Score, LOSS, WIN};
use crate::position::{legal_moves_of, playable, position_after, Color, Move, Position};

verus! {

/// What a tree of search nodes holds, as a mathematical value.
pub struct Tree {
    /// The text of the node's position.
    pub position: Seq<char>,
    /// The node's score.
    pub score: int,
    /// The children, with the moves that lead to them; `None` while the node
    /// has not been expanded.
    pub children: Option<Seq<(Move, Tree)>>,
}

/// A node of the search tree.
pub struct SearchNode {
    pub(crate) position: Position,
    pub(crate) score: Score,
    pub(crate) children: Option<Vec<(Move, SearchNode)>>,
}

/// The moves that lead on from `text`, each with the position it leads to:
/// of the first `upto` legal moves, those whose outcome can be played from,
/// in the order in which they are generated.
pub open spec fn successors_upto(text: Seq<char>, upto: nat) -> Seq<(Move, Seq<char>)>
    decreases upto,
{
    if upto == 0 {
        Seq::empty()
    } else {
        let before = successors_upto(text, (upto - 1) as nat);
        let mv = legal_moves_of(text)[upto - 1];
        if playable(position_after(text, mv)) {
            before.push((mv, position_after(text, mv)))
        } else {
            before
        }
    }
}

/// The moves that lead on from `text`, each with the position it leads to.
pub open spec fn successors(text: Seq<char>) -> Seq<(Move, Seq<char>)> {
    successors_upto(text, legal_moves_of(text).len())
}

/// Every successor is reached by a legal move, and can be played from.
pub proof fn lemma_successors_are_legal(text: Seq<char>, upto: nat, k: int)
    requires
        upto <= legal_moves_of(text).len(),
        0 <= k < successors_upto(text, upto).len(),
    ensures
        legal_moves_of(text).contains(successors_upto(text, upto)[k].0),
        successors_upto(text, upto)[k].1 == position_after(text, successors_upto(text, upto)[k].0),
        playable(successors_upto(text, upto)[k].1),
    decreases upto,
{
    if upto > 0 {
        let before = successors_upto(text, (upto - 1) as nat);
        if k < before.len() {
            lemma_successors_are_legal(text, (upto - 1) as nat, k);
        } else {
            assert(legal_moves_of(text)[upto - 1] == successors_upto(text, upto)[k].0);
        }
    }
}

/// A node that has just been made for `text`: not expanded, with the static
/// score of its position.
pub open spec fn fresh(text: Seq<char>, side: Color) -> Tree {
    Tree { position: text, score: static_score(text, side), children: None }
}

/// Fresh nodes for the given moves and positions.
pub open spec fn fresh_all(next: Seq<(Move, Seq<char>)>, side: Color) -> Seq<(Move, Tree)> {
    Seq::new(next.len(), |i: int| (next[i].0, fresh(next[i].1, side)))
}

/// The children that expanding a node for `text` gives it.
pub open spec fn offspring(text: Seq<char>, side: Color) -> Seq<(Move, Tree)> {
    fresh_all(successors(text), side)
}

/// The tree `t` with its root expanded: unchanged if it already was.
pub open spec fn expanded(t: Tree, side: Color) -> Tree {
    if t.children.is_some() {
        t
    } else {
        Tree { position: t.position, score: t.score, children: Some(offspring(t.position, side)) }
    }
}

/// The children of `t` once its root is expanded.
pub open spec fn children_of(t: Tree, side: Color) -> Seq<(Move, Tree)> {
    expanded(t, side).children.unwrap()
}

/// Every score in `t` lies between the forced loss and the forced win, and
/// every expanded node has exactly the children that the rules give its
/// position: the same moves, in the same order, each leading to the position
/// of the child.
pub open spec fn well_formed(t: Tree) -> bool
    decreases t,
{
    &&& LOSS <= t.score <= WIN
    &&& match t.children {
        None => true,
        Some(cs) => {
            &&& cs.len() == successors(t.position).len()
            &&& forall|i: int|
                0 <= i < cs.len() ==> {
                    &&& (#[trigger] cs[i]).0 == successors(t.position)[i].0
                    &&& cs[i].1.position == successors(t.position)[i].1
                    &&& well_formed(cs[i].1)
                }
        },
    }
}

/// What a list of children holds.
pub open spec fn forest(nodes: Seq<(Move, SearchNode)>) -> Seq<(Move, Tree)> {
    Seq::new(nodes.len(), |i: int| (nodes[i].0, nodes[i].1@))
}

/// What the tree below `node` holds.
pub closed spec fn tree_of(node: SearchNode) -> Tree
    decreases node,
{
    Tree {
        position: node.position@,
        score: node.score as int,
        children: match node.children {
            None => None,
            Some(nodes) => Some(
                Seq::new(
                    nodes@.len(),
                    |i: int|
                        if 0 <= i < nodes@.len() {
                            (nodes@[i].0, tree_of(nodes@[i].1))
                        } else {
                            arbitrary()
                        },
                ),
            ),
        },
    }
}

impl View for SearchNode {
    type V = Tree;

    open spec fn view(&self) -> Tree {
        tree_of(*self)
    }
}

/// Fresh nodes are well formed, and so is a node that has just been expanded.
pub proof fn lemma_offspring_well_formed(t: Tree, side: Color)
    requires
        well_formed(t),
    ensures
        well_formed(expanded(t, side)),
        children_of(t, side).len() == successors(t.position).len(),
        forall|i: int|
            0 <= i < children_of(t, side).len() ==> {
                &&& (#[trigger] children_of(t, side)[i]).0 == successors(t.position)[i].0
                &&& children_of(t, side)[i].1.position == successors(t.position)[i].1
                &&& well_formed(children_of(t, side)[i].1)
            },
{
    if t.children.is_none() {
        let cs = offspring(t.position, side);
        assert forall|i: int| 0 <= i < cs.len() implies well_formed((#[trigger] cs[i]).1) by {
            assert(cs[i].1 == fresh(successors(t.position)[i].1, side));
            lemma_successors_are_legal(t.position, legal_moves_of(t.position).len(), i);
            lemma_static_score_in_range(successors(t.position)[i].1, side);
        }
        assert(well_formed(expanded(t, side)));
    }
}

impl SearchNode {
    /// The node keeps to the rules: see [`well_formed`].
    pub open spec fn wf(&self) -> bool {
        well_formed(self@)
    }

    /// The view unfolded by one level.
    pub(crate) proof fn lemma_view(&self)
        ensures
            self@.position == self.position@,
            self@.score == self.score,
            self@.children == match self.children {
                None => None::<Seq<(Move, Tree)>>,
                Some(nodes) => Some(forest(nodes@)),
            },
    {
        match self.children {
            None => {},
            Some(nodes) => {
                assert(self@.children.is_some());
                let cs = self@.children.unwrap();
                assert(cs.len() == nodes@.len());
                assert forall|i: int| 0 <= i < cs.len() implies cs[i] == forest(nodes@)[i] by {
                    assert(cs[i] == (nodes@[i].0, nodes@[i].1@));
                }
                assert(cs =~= forest(nodes@));
            },
        }
    }

    /// A new node for `position`, scored for `side` and not yet expanded.
    pub fn new(position: Position, side: Color) -> (node: SearchNode)
        ensures
            node@ == fresh(position@, side),
            node.wf(),
    {
        let score = score_for(&position, side);
        let node = SearchNode { position, score, children: None };
        proof {
            node.lemma_view();
        }
        node
    }

    /// The position of the node.
    pub fn position(&self) -> (position: &Position)
        ensures
            position@ == self@.position,
    {
        proof {
            self.lemma_view();
        }
        &self.position
    }

    /// The score of the node.
    pub fn score(&self) -> (score: Score)
        ensures
            score == self@.score,
    {
        proof {
            self.lemma_view();
        }
        self.score
    }

    /// Whether the node has been expanded.
    pub fn is_expanded(&self) -> (yes: bool)
        ensures
            yes == self@.children.is_some(),
    {
        proof {
            self.lemma_view();
        }
        self.children.is_some()
    }

    /// How many children the node has; none while it is not expanded.
    pub fn child_count(&self) -> (count: usize)
        ensures
            count == match self@.children {
                Some(cs) => cs.len(),
                None => 0,
            },
    {
        proof {
            self.lemma_view();
        }
        match &self.children {
            Some(nodes) => nodes.len(),
            None => 0,
        }
    }

    /// The move that leads to child number `index`.
    pub fn child_move(&self, index: usize) -> (mv: Move)
        requires
            self@.children.is_some(),
            index < self@.children.unwrap().len(),
        ensures
            mv == self@.children.unwrap()[index as int].0,
    {
        proof {
            self.lemma_view();
        }
        match &self.children {
            Some(nodes) => nodes[index].0,
            None => Move { source: 0, dest: 0, promotion: None },
        }
    }

    /// Child number `index`.
    pub fn child(&self, index: usize) -> (node: &SearchNode)
        requires
            self@.children.is_some(),
            index < self@.children.unwrap().len(),
        ensures
            node@ == self@.children.unwrap()[index as int].1,
    {
        proof {
            self.lemma_view();
        }
        match &self.children {
            Some(nodes) => &nodes[index].1,
            None => self,
        }
    }

    /// Expands the node if it is not expanded yet: one fresh child for every
    /// move that leads on from its position, in the order of the moves.
    pub fn expand(&mut self, side: Color)
        requires
            old(self).wf(),
        ensures
            final(self)@ == expanded(old(self)@, side),
            final(self).wf(),
    {
        proof {
            self.lemma_view();
            lemma_offspring_well_formed(self@, side);
        }
        if self.children.is_some() {
            return;
        }
        let moves = self.position.legal_moves();
        let mut nodes: Vec<(Move, SearchNode)> = Vec::new();
        let mut i: usize = 0;
        while i < moves.len()
            invariant
                0 <= i <= moves.len(),
                moves@ == legal_moves_of(self.position@),
                forest(nodes@) == fresh_all(successors_upto(self.position@, i as nat), side),
            decreases moves.len() - i,
        {
            let mv = moves[i];
            assert(moves@[i as int] == mv);
            let ghost before = nodes@;
            match self.position.after(mv) {
                Some(next) => {
                    let ghost text = next@;
                    let child = SearchNode::new(next, side);
                    let ghost made = child;
                    nodes.push((mv, child));
                    proof {
                        let grown = successors_upto(self.position@, (i + 1) as nat);
                        let known = successors_upto(self.position@, i as nat);
                        assert(grown == known.push((mv, text)));
                        assert(forest(before).len() == fresh_all(known, side).len());
                        assert forall|k: int| 0 <= k < forest(nodes@).len() implies forest(
                            nodes@,
                        )[k] == fresh_all(grown, side)[k] by {
                            if k < before.len() {
                                assert(nodes@[k] == before[k]);
                                assert(forest(before)[k] == fresh_all(known, side)[k]);
                                assert(grown[k] == known[k]);
                            } else {
                                assert(nodes@[k] == (mv, made));
                                assert(grown[k] == (mv, text));
                            }
                        }
                        assert(forest(nodes@) =~= fresh_all(grown, side));
                    }
                },
                None => {
                    assert(successors_upto(self.position@, (i + 1) as nat) == successors_upto(
                        self.position@,
                        i as nat,
                    ));
                },
            }
            i += 1;
        }
        self.children = Some(nodes);
        proof {
            self.lemma_view();
        }
    }

    /// How many nodes the tree below this node holds, itself included; the
    /// greatest number there is where they are more than that.
    pub fn size(&self) -> (count: usize)
        ensures
            count == if nodes_in(self@) <= usize::MAX {
                nodes_in(self@)
            } else {
                usize::MAX as nat
            },
        decreases self,
    {
        proof {
            self.lemma_view();
        }
        match &self.children {
            None => 1,
            Some(nodes) => {
                let ghost cs = self@.children.unwrap();
                let mut count: usize = 1;
                let mut i: usize = 0;
                while i < nodes.len()
                    invariant
                        0 <= i <= nodes.len(),
                        self.children == Some(*nodes),
                        cs == forest(nodes@),
                        count == if 1 + nodes_among(cs, i as nat) <= usize::MAX {
                            1 + nodes_among(cs, i as nat)
                        } else {
                            usize::MAX as nat
                        },
                    decreases nodes.len() - i,
                {
                    proof {
                        assert(self.children->0 == *nodes);
                        assert(decreases_to!(*self => nodes[i as int].1));
                    }
                    let below = nodes[i].1.size();
                    count = count.saturating_add(below);
                    i += 1;
                }
                count
            },
        }
    }
}

/// How many nodes `t` holds, its root included.
pub open spec fn nodes_in(t: Tree) -> nat
    decreases t, 0nat,
{
    match t.children {
        None => 1,
        Some(cs) => 1 + nodes_among(cs, cs.len()),
    }
}

/// How many nodes the first `upto` of the trees `cs` hold together.
pub open spec fn nodes_among(cs: Seq<(Move, Tree)>, upto: nat) -> nat
    decreases cs, upto,
{
    if upto == 0 || upto > cs.len() {
        0
    } else {
        nodes_among(cs, (upto - 1) as nat) + nodes_in(cs[upto - 1].1)
    }
}

} // verus!
