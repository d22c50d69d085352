//! Finding a position in the tree that was kept, and taking its subtree out.
//!
//! After a move has been played on the board, the node for the new position
//! becomes the root of the tree and everything else is dropped. The node is
//! looked for breadth first: one ply deeper only when no node of the plies
//! above holds the position, and within a ply in the order of the moves.
//! Nodes on the way that were never expanded are expanded as the path is
//! followed.

use vstd::prelude::*;
use crate::position::{legal_moves_of, Color, Move, Position};
use crate::tree::{
    children_of,
    lemma_offspring_well_formed,
    successors,
    successors_upto,
    well_formed,
    SearchNode,
    Tree,
};

verus! {

/// The way to the first position, in the order of the moves, that is `target`
/// and lies exactly `level` plies below `text`: the number of the child to
/// take at each ply.
pub open spec fn path_at(text: Seq<char>, target: Seq<char>, level: nat) -> Option<Seq<int>>
    decreases level, 0int,
{
    if level == 0 {
        if text == target {
            Some(Seq::<int>::empty())
        } else {
            None
        }
    } else {
        path_among(successors(text), 0, target, (level - 1) as nat)
    }
}

/// The way to the first position that is `target` and lies exactly `level`
/// plies below one of the positions `next`, from number `from` on.
pub open spec fn path_among(
    next: Seq<(Move, Seq<char>)>,
    from: nat,
    target: Seq<char>,
    level: nat,
) -> Option<Seq<int>>
    decreases level, next.len() - from,
{
    if from >= next.len() {
        None
    } else {
        match path_at(next[from as int].1, target, level) {
            Some(rest) => Some(seq![from as int] + rest),
            None => path_among(next, (from + 1) as nat, target, level),
        }
    }
}

/// The way to `target` from `text` that takes the fewest plies, `level` at
/// least and `limit` at most.
pub open spec fn shortest_path(
    text: Seq<char>,
    target: Seq<char>,
    level: nat,
    limit: nat,
) -> Option<Seq<int>>
    decreases limit - level,
{
    if level > limit {
        None
    } else {
        match path_at(text, target, level) {
            Some(path) => Some(path),
            None => if level == limit {
                None
            } else {
                shortest_path(text, target, (level + 1) as nat, limit)
            },
        }
    }
}

/// The subtree of `t` at the end of `path`, with each node on the way
/// expanded if it was not.
pub open spec fn follow(t: Tree, path: Seq<int>, side: Color) -> Tree
    decreases path.len(),
{
    if path.len() == 0 {
        t
    } else {
        follow(children_of(t, side)[path[0]].1, path.drop_first(), side)
    }
}

/// Every step of `path` names a child that is there.
pub open spec fn valid_path(t: Tree, path: Seq<int>, side: Color) -> bool
    decreases path.len(),
{
    path.len() == 0 || (0 <= path[0] < children_of(t, side).len() && valid_path(
        children_of(t, side)[path[0]].1,
        path.drop_first(),
        side,
    ))
}

/// The steps of a path as numbers.
pub open spec fn steps(path: Seq<usize>) -> Seq<int> {
    path.map_values(|step: usize| step as int)
}

/// The steps of a path that may not exist.
pub open spec fn steps_of(path: Option<Vec<usize>>) -> Option<Seq<int>> {
    match path {
        Some(p) => Some(steps(p@)),
        None => None,
    }
}

/// The first successors stay in place when later moves are added.
pub proof fn lemma_successors_prefix(text: Seq<char>, upto: nat, more: nat)
    requires
        upto <= more,
    ensures
        successors_upto(text, upto).len() <= successors_upto(text, more).len(),
        successors_upto(text, upto).len() <= upto,
        forall|k: int|
            0 <= k < successors_upto(text, upto).len() ==> successors_upto(text, more)[k]
                == successors_upto(text, upto)[k],
    decreases more,
{
    if upto < more {
        lemma_successors_prefix(text, upto, (more - 1) as nat);
    } else if upto > 0 {
        lemma_successors_prefix(text, (upto - 1) as nat, (upto - 1) as nat);
    }
}

/// A way found among some positions starts at one of them and goes on as the
/// way found from that one.
pub proof fn lemma_path_among(
    next: Seq<(Move, Seq<char>)>,
    from: nat,
    target: Seq<char>,
    level: nat,
)
    requires
        path_among(next, from, target, level).is_some(),
    ensures
        ({
            let path = path_among(next, from, target, level).unwrap();
            &&& path.len() > 0
            &&& from <= path[0] < next.len()
            &&& path_at(next[path[0]].1, target, level) == Some(path.drop_first())
        }),
    decreases next.len() - from,
{
    if from < next.len() {
        match path_at(next[from as int].1, target, level) {
            Some(rest) => {
                assert((seq![from as int] + rest).drop_first() =~= rest);
            },
            None => {
                lemma_path_among(next, (from + 1) as nat, target, level);
            },
        }
    }
}

/// A way that was found can be followed in a well-formed tree for the same
/// position, and ends at a node that holds the target.
pub proof fn lemma_path_leads_to_target(
    t: Tree,
    target: Seq<char>,
    level: nat,
    side: Color,
)
    requires
        well_formed(t),
        path_at(t.position, target, level).is_some(),
    ensures
        valid_path(t, path_at(t.position, target, level).unwrap(), side),
        follow(t, path_at(t.position, target, level).unwrap(), side).position == target,
        well_formed(follow(t, path_at(t.position, target, level).unwrap(), side)),
        path_at(t.position, target, level).unwrap().len() == level,
    decreases level,
{
    if level > 0 {
        let next = successors(t.position);
        lemma_path_among(next, 0, target, (level - 1) as nat);
        let path = path_at(t.position, target, level).unwrap();
        lemma_offspring_well_formed(t, side);
        let child = children_of(t, side)[path[0]].1;
        assert(child.position == next[path[0]].1);
        lemma_path_leads_to_target(child, target, (level - 1) as nat, side);
    }
}

/// Looks for `target` exactly `level` plies below `position`, without a tree.
pub fn path_from(position: &Position, target: &Position, level: usize) -> (path: Option<
    Vec<usize>,
>)
    ensures
        steps_of(path) == path_at(position@, target@, level as nat),
    decreases level,
{
    if level == 0 {
        if position.same_as(target) {
            let path: Vec<usize> = Vec::new();
            assert(steps(path@) =~= Seq::<int>::empty());
            return Some(path);
        }
        return None;
    }
    let moves = position.legal_moves();
    let ghost next = successors(position@);
    let mut i: usize = 0;
    let mut k: usize = 0;
    while i < moves.len()
        invariant
            level > 0,
            0 <= i <= moves.len(),
            moves@ == legal_moves_of(position@),
            next == successors(position@),
            k == successors_upto(position@, i as nat).len(),
            path_among(next, 0, target@, (level - 1) as nat) == path_among(
                next,
                k as nat,
                target@,
                (level - 1) as nat,
            ),
        decreases moves.len() - i,
    {
        let mv = moves[i];
        assert(moves@[i as int] == mv);
        proof {
            lemma_successors_prefix(position@, i as nat, (i + 1) as nat);
            lemma_successors_prefix(position@, (i + 1) as nat, moves@.len());
        }
        match position.after(mv) {
            Some(reached) => {
                assert(successors_upto(position@, (i + 1) as nat) == successors_upto(
                    position@,
                    i as nat,
                ).push((mv, reached@)));
                assert(next[k as int] == (mv, reached@));
                match path_from(&reached, target, level - 1) {
                    Some(rest) => {
                        let mut path = rest;
                        path.insert(0, k);
                        assert(steps(path@) =~= seq![k as int] + steps(rest@));
                        return Some(path);
                    },
                    None => {},
                }
                k += 1;
            },
            None => {
                assert(successors_upto(position@, (i + 1) as nat) == successors_upto(
                    position@,
                    i as nat,
                ));
            },
        }
        i += 1;
    }
    None
}

impl SearchNode {
    /// Looks for `target` exactly `level` plies below this node. Children
    /// that the tree holds are used; below a node that was never expanded the
    /// moves are generated on the way.
    pub fn path_to(&self, target: &Position, level: usize) -> (path: Option<Vec<usize>>)
        requires
            self.wf(),
        ensures
            steps_of(path) == path_at(self@.position, target@, level as nat),
        decreases level,
    {
        proof {
            self.lemma_view();
        }
        if level == 0 {
            if self.position.same_as(target) {
                let path: Vec<usize> = Vec::new();
                assert(steps(path@) =~= Seq::<int>::empty());
                return Some(path);
            }
            return None;
        }
        match &self.children {
            None => path_from(&self.position, target, level),
            Some(nodes) => {
                let ghost next = successors(self.position@);
                let mut i: usize = 0;
                while i < nodes.len()
                    invariant
                        level > 0,
                        0 <= i <= nodes.len(),
                        self.wf(),
                        self.children == Some(*nodes),
                        next == successors(self.position@),
                        nodes.len() == next.len(),
                        path_among(next, 0, target@, (level - 1) as nat) == path_among(
                            next,
                            i as nat,
                            target@,
                            (level - 1) as nat,
                        ),
                    decreases nodes.len() - i,
                {
                    proof {
                        self.lemma_view();
                        assert(self@.children.unwrap()[i as int] == (
                            nodes@[i as int].0,
                            nodes@[i as int].1@,
                        ));
                    }
                    match nodes[i].1.path_to(target, level - 1) {
                        Some(rest) => {
                            let mut path = rest;
                            path.insert(0, i);
                            assert(steps(path@) =~= seq![i as int] + steps(rest@));
                            return Some(path);
                        },
                        None => {},
                    }
                    i += 1;
                }
                None
            },
        }
    }

    /// Takes out the subtree at the end of `path`, from step `from` on, and
    /// drops the rest of the tree.
    pub fn detach(self, path: &Vec<usize>, from: usize, side: Color) -> (node: SearchNode)
        requires
            self.wf(),
            from <= path.len(),
            valid_path(self@, steps(path@).skip(from as int), side),
        ensures
            node@ == follow(self@, steps(path@).skip(from as int), side),
            node.wf(),
        decreases path.len() - from,
    {
        if from == path.len() {
            return self;
        }
        let ghost rest = steps(path@).skip(from as int);
        let ghost t0 = self@;
        let mut node = self;
        node.expand(side);
        proof {
            node.lemma_view();
            lemma_offspring_well_formed(t0, side);
            assert(rest[0] == path@[from as int]);
            assert(rest.drop_first() =~= steps(path@).skip(from + 1));
        }
        let index = path[from];
        match node.children {
            Some(nodes) => {
                let mut nodes = nodes;
                let ghost chosen = nodes@[index as int];
                let (_, child) = nodes.swap_remove(index);
                assert(child@ == chosen.1@);
                child.detach(path, from + 1, side)
            },
            None => node,
        }
    }

    /// Finds the node for `target` at most `limit` plies below this node and
    /// makes it the root: the nearest one, and among those of one ply the
    /// first in the order of the moves. `None` where there is none.
    pub fn find(self, target: &Position, limit: usize, side: Color) -> (found: Option<SearchNode>)
        requires
            self.wf(),
        ensures
            found.is_some() == shortest_path(self@.position, target@, 0, limit as nat).is_some(),
            found matches Some(node) ==> {
                &&& node@ == follow(
                    self@,
                    shortest_path(self@.position, target@, 0, limit as nat).unwrap(),
                    side,
                )
                &&& node@.position == target@
                &&& node.wf()
            },
    {
        let mut level: usize = 0;
        loop
            invariant
                self.wf(),
                0 <= level <= limit,
                shortest_path(self@.position, target@, 0, limit as nat) == shortest_path(
                    self@.position,
                    target@,
                    level as nat,
                    limit as nat,
                ),
            decreases limit - level,
        {
            match self.path_to(target, level) {
                Some(path) => {
                    proof {
                        lemma_path_leads_to_target(self@, target@, level as nat, side);
                        assert(steps(path@).skip(0) =~= steps(path@));
                    }
                    return Some(self.detach(&path, 0, side));
                },
                None => {},
            }
            if level == limit {
                return None;
            }
            level += 1;
        }
    }
}

} // verus!
