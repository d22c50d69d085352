//! The engine's turn: from the position on the board to the move it plays.
//!
//! The state holds the tree that was kept from the last turn. At each turn the
//! position on the board is looked for in that tree, the tree below it is
//! searched, and the subtree of the move that is played is kept for the next
//! turn.

use vstd::prelude::*;
use crate::cache::{follow, shortest_path};
use crate::position::{mover_of, Color, Move, Position};
use crate::root::{best_move, root_choice, SearchError};
use crate::tree::{children_of, fresh, nodes_in, well_formed, SearchNode, Tree};

verus! {

/// How many plies deep every move at the root is searched, unless the state
/// is made with another depth.
pub const MAX_DEPTH: usize = 6;

/// How many plies below the root of the kept tree the position on the board
/// is looked for: a move of the engine and the reply to it.
pub const REACH: usize = 2;

/// The state of the engine between turns.
pub struct AIState {
    root: Option<SearchNode>,
    depth: usize,
}

/// The tree that a turn starts from: a fresh one where nothing was kept,
/// else the subtree of the kept tree that holds the position `text`, if it is
/// within reach.
pub open spec fn start_of(kept: Option<Tree>, text: Seq<char>, side: Color) -> Option<Tree> {
    match kept {
        None => Some(fresh(text, side)),
        Some(t) => match shortest_path(t.position, text, 0, REACH as nat) {
            Some(path) => Some(follow(t, path, side)),
            None => None,
        },
    }
}

/// What a turn gives for `side` in the position `text`, searching `depth`
/// plies from what was kept: the move or the reason why there is none, and
/// what is kept afterwards. There is no move, and nothing is kept, where the
/// kept tree does not hold the position within reach, where `side` is not to
/// move, and where no move leads on. Otherwise the move is the one chosen at
/// the root, and its subtree is kept.
pub open spec fn turn(kept: Option<Tree>, depth: nat, text: Seq<char>, side: Color) -> (
    Result<Move, SearchError>,
    Option<Tree>,
) {
    match start_of(kept, text, side) {
        None => (Err(SearchError::NotInCache), None),
        Some(start) => if mover_of(start.position) != side {
            (Err(SearchError::NotToMove), None)
        } else if children_of(start, side).len() == 0 {
            (Err(SearchError::NoMove), None)
        } else {
            (Ok(root_choice(start, depth, side).0), Some(root_choice(start, depth, side).1))
        },
    }
}

impl AIState {
    #[verifier::type_invariant]
    spec fn kept_is_well_formed(self) -> bool {
        match self.root {
            Some(node) => node.wf(),
            None => true,
        }
    }

    /// The tree that is kept, if any.
    pub closed spec fn kept(&self) -> Option<Tree> {
        match self.root {
            Some(node) => Some(node@),
            None => None,
        }
    }

    /// How deep every move at the root is searched.
    pub closed spec fn depth(&self) -> nat {
        self.depth as nat
    }

    /// A state that keeps no tree and searches `depth` plies deep.
    pub fn new(depth: usize) -> (state: AIState)
        ensures
            state.kept().is_none(),
            state.depth() == depth,
    {
        AIState { root: None, depth }
    }

    /// A state that starts with a tree for `position`, scored for `side`.
    pub fn seed(position: Position, side: Color, depth: usize) -> (state: AIState)
        ensures
            state.kept() == Some(fresh(position@, side)),
            state.depth() == depth,
    {
        AIState { root: Some(SearchNode::new(position, side)), depth }
    }

    /// The tree that is kept.
    pub fn root(&self) -> (node: Option<&SearchNode>)
        ensures
            node.is_some() == self.kept().is_some(),
            node matches Some(n) ==> Some(n@) == self.kept() && n.wf(),
    {
        proof {
            use_type_invariant(self);
        }
        self.root.as_ref()
    }

    /// How many positions the kept tree holds.
    pub fn known_board_states(&self) -> (count: usize)
        ensures
            count == match self.kept() {
                Some(t) => if nodes_in(t) <= usize::MAX {
                    nodes_in(t)
                } else {
                    usize::MAX as nat
                },
                None => 0,
            },
    {
        match &self.root {
            Some(node) => node.size(),
            None => 0,
        }
    }

    /// Chooses the move that `player` plays in `position`.
    ///
    /// The search starts from the subtree of the kept tree that holds
    /// `position`, or from a fresh tree where nothing was kept. It fails where
    /// the kept tree does not hold the position within reach, where `player`
    /// is not to move, and where no move leads on. After a failure nothing
    /// is kept; after a move, the subtree of that move is.
    pub fn best_move(&mut self, position: &Position, player: Color) -> (chosen: Result<
        Move,
        SearchError,
    >)
        ensures
            final(self).depth() == old(self).depth(),
            chosen == turn(old(self).kept(), old(self).depth(), position@, player).0,
            final(self).kept() == turn(old(self).kept(), old(self).depth(), position@, player).1,
            final(self).kept() matches Some(t) ==> well_formed(t),
    {
        proof {
            use_type_invariant(&*self);
        }
        let depth = self.depth;
        let mut kept: Option<SearchNode> = None;
        std::mem::swap(&mut self.root, &mut kept);
        let start = match kept {
            Some(tree) => match tree.find(position, REACH, player) {
                Some(node) => node,
                None => {
                    return Err(SearchError::NotInCache);
                },
            },
            None => SearchNode::new(position.clone(), player),
        };
        match best_move(start, depth, player) {
            Ok((mv, kept)) => {
                self.root = Some(kept);
                Ok(mv)
            },
            Err(error) => Err(error),
        }
    }
}

impl Default for AIState {
    fn default() -> (state: AIState)
        ensures
            state.kept().is_none(),
            state.depth() == MAX_DEPTH,
    {
        AIState::new(MAX_DEPTH)
    }
}

} // verus!
