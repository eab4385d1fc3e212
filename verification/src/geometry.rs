//! The square board, the four directions of travel, and which cells a snake may
//! enter.

use crate::random::{choose_item, gen_index};
use std::collections::VecDeque;
use vstd::prelude::*;

verus! {

/// The side of the square board, in cells.
pub const FIELD_SZ: i32 = 20;

/// A cell of the board: column, then row.
pub type Pos = (i32, i32);

/// Whether a cell lies on the board.
pub open spec fn in_field(p: Pos) -> bool {
    0 <= p.0 < FIELD_SZ && 0 <= p.1 < FIELD_SZ
}

/// Whether a cell can be moved one step from without leaving `i32`.
pub open spec fn steppable(p: Pos) -> bool {
    i32::MIN < p.0 < i32::MAX && i32::MIN < p.1 < i32::MAX
}

/// A direction of travel.
#[derive(Clone, Copy, Debug, PartialEq, Eq, Structural)]
pub enum Dir {
    Up,
    Down,
    Left,
    Right,
}

impl Dir {
    /// The direction that points the other way.
    #[verifier::allow_in_spec]
    pub fn opp(self) -> Self
        returns
            match self {
                Dir::Up => Dir::Down,
                Dir::Down => Dir::Up,
                Dir::Left => Dir::Right,
                Dir::Right => Dir::Left,
            },
    {
        match self {
            Dir::Up => Dir::Down,
            Dir::Down => Dir::Up,
            Dir::Left => Dir::Right,
            Dir::Right => Dir::Left,
        }
    }

    /// One step in the direction, as a change of column and row (rows grow
    /// downwards).
    #[verifier::allow_in_spec]
    pub fn dxy(self) -> (i32, i32)
        returns
            match self {
                Dir::Up => (0i32, -1i32),
                Dir::Down => (0i32, 1i32),
                Dir::Left => (-1i32, 0i32),
                Dir::Right => (1i32, 0i32),
            },
    {
        match self {
            Dir::Up => (0, -1),
            Dir::Down => (0, 1),
            Dir::Left => (-1, 0),
            Dir::Right => (1, 0),
        }
    }

    /// The direction numbered `i`: 0 up, 1 down, 2 left, anything else right.
    #[verifier::allow_in_spec]
    pub fn from(i: usize) -> Self
        returns
            if i == 0 {
                Dir::Up
            } else if i == 1 {
                Dir::Down
            } else if i == 2 {
                Dir::Left
            } else {
                Dir::Right
            },
    {
        match i {
            0 => Dir::Up,
            1 => Dir::Down,
            2 => Dir::Left,
            _ => Dir::Right,
        }
    }
}

/// The cell one step from `p` in direction `d`.
pub open spec fn step(p: Pos, d: Dir) -> Pos {
    ((p.0 + d.dxy().0) as i32, (p.1 + d.dxy().1) as i32)
}

/// Turning round twice faces the same way again, and never the same way as
/// before one turn.
pub proof fn lemma_opp_involution(d: Dir)
    ensures
        d.opp().opp() == d,
        d.opp() != d,
{
}

/// A step in the opposite direction undoes a step; every step moves by exactly
/// one cell along one axis.
pub proof fn lemma_dxy_opposite(d: Dir)
    ensures
        d.opp().dxy().0 == -d.dxy().0,
        d.opp().dxy().1 == -d.dxy().1,
        (d.dxy().0 == 0) != (d.dxy().1 == 0),
        -1 <= d.dxy().0 <= 1,
        -1 <= d.dxy().1 <= 1,
{
}

/// The numbers 0 to 3 name the four directions, each once, and every number
/// from 3 on names `Right`.
pub proof fn lemma_from_numbers(i: usize, j: usize)
    ensures
        i < 4 && j < 4 && i != j ==> Dir::from(i) != Dir::from(j),
        i >= 3 ==> Dir::from(i) == Dir::Right,
{
}

/// Whether two cells are the same.
pub fn same_pos(a: Pos, b: Pos) -> (r: bool)
    ensures
        r == (a == b),
{
    a.0 == b.0 && a.1 == b.1
}

/// Whether the deque holds the cell.
pub fn body_contains(body: &VecDeque<Pos>, p: Pos) -> (r: bool)
    ensures
        r == body@.contains(p),
{
    let n = body.len();
    let mut i: usize = 0;
    while i < n
        invariant
            n == body@.len(),
            i <= n,
            forall|k: int| 0 <= k < i ==> body@[k] != p,
        decreases n - i,
    {
        if same_pos(body[i], p) {
            assert(body@[i as int] == p);
            return true;
        }
        i = i + 1;
    }
    proof {
        if body@.contains(p) {
            let k = choose|k: int| 0 <= k < body@.len() && body@[k] == p;
            assert(body@[k] == p);
        }
    }
    false
}

/// A cell is safe when it is on the board and not part of the body.
pub fn is_safe_position(pos: Pos, body: &VecDeque<Pos>) -> (r: bool)
    ensures
        r == (in_field(pos) && !body@.contains(pos)),
{
    pos.0 >= 0 && pos.0 < FIELD_SZ && pos.1 >= 0 && pos.1 < FIELD_SZ && !body_contains(body, pos)
}

/// Whether the step from `head` in the direction numbered `d` lands on a safe
/// cell.
pub open spec fn safe_move(head: Pos, body: Seq<Pos>, d: usize) -> bool {
    in_field(step(head, Dir::from(d))) && !body.contains(step(head, Dir::from(d)))
}

/// The directions, among 0 to 3 in order, whose step from `head` lands on a
/// safe cell.
pub fn safe_dirs(head: Pos, body: &VecDeque<Pos>) -> (dirs: Vec<usize>)
    requires
        steppable(head),
    ensures
        dirs@ == Seq::new(4, |d: int| d as usize).filter(|d: usize| safe_move(head, body@, d)),
{
    let ghost all = Seq::new(4, |d: int| d as usize);
    let mut dirs: Vec<usize> = Vec::new();
    let mut d: usize = 0;
    while d < 4
        invariant
            d <= 4,
            steppable(head),
            all == Seq::new(4, |d: int| d as usize),
            dirs@ == all.take(d as int).filter(|d: usize| safe_move(head, body@, d)),
        decreases 4 - d,
    {
        let (dx, dy) = Dir::from(d).dxy();
        let new_pos = (head.0 + dx, head.1 + dy);
        proof {
            reveal_with_fuel(Seq::filter, 1);
            assert(all.take(d + 1).drop_last() =~= all.take(d as int));
        }
        if is_safe_position(new_pos, body) {
            dirs.push(d);
        }
        d = d + 1;
    }
    proof {
        assert(all.take(4) =~= all);
    }
    dirs
}

/// The first direction, among 0 to 3 in order, whose step from `head` lands on
/// a safe cell other than `head`; `None` when there is none.
pub fn first_safe_dir(head: Pos, body: &VecDeque<Pos>) -> (r: Option<usize>)
    requires
        steppable(head),
    ensures
        match r {
            Some(d) => {
                &&& d < 4
                &&& safe_move(head, body@, d)
                &&& forall|e: usize| e < d ==> !safe_move(head, body@, e)
            },
            None => forall|e: usize| e < 4 ==> !safe_move(head, body@, e),
        },
{
    let mut d: usize = 0;
    while d < 4
        invariant
            d <= 4,
            steppable(head),
            forall|e: usize| e < d ==> !safe_move(head, body@, e),
        decreases 4 - d,
    {
        let (dx, dy) = Dir::from(d).dxy();
        let new_pos = (head.0 + dx, head.1 + dy);
        if is_safe_position(new_pos, body) && !same_pos(new_pos, head) {
            return Some(d);
        }
        d = d + 1;
    }
    None
}

/// The move made when no effector stands out: one of the safe moves, drawn
/// at random, or any of the four, drawn at random, when none is safe.
pub fn fallback_dir(head: Pos, body: &VecDeque<Pos>) -> (d: usize)
    requires
        steppable(head),
    ensures
        d < 4,
        (exists|k: usize| k < 4 && safe_move(head, body@, k)) ==> safe_move(head, body@, d),
{
    let safe = safe_dirs(head, body);
    if safe.len() > 0 {
        let d = choose_item(&safe);
        proof {
            let all = Seq::new(4, |i: int| i as usize);
            let pred = |i: usize| safe_move(head, body@, i);
            let j = choose|j: int| 0 <= j < safe@.len() && safe@[j] == d;
            all.lemma_filter_pred(pred, j);
            all.lemma_filter_contains_rev(pred, d);
            let i = choose|i: int| 0 <= i < all.len() && all[i] == d;
            assert(all[i] == i as usize);
        }
        d
    } else {
        proof {
            let all = Seq::new(4, |i: int| i as usize);
            let pred = |i: usize| safe_move(head, body@, i);
            assert forall|k: usize| k < 4 implies !safe_move(head, body@, k) by {
                if safe_move(head, body@, k) {
                    assert(all[k as int] == k);
                    all.lemma_filter_contains(pred, k as int);
                }
            }
        }
        gen_index(4)
    }
}

/// The move toward food seen in direction `d`: `d` itself when its step is
/// safe, else the first safe direction, and `None` when no move is safe.
pub fn toward_food(head: Pos, body: &VecDeque<Pos>, d: usize) -> (r: Option<usize>)
    requires
        steppable(head),
        d < 4,
    ensures
        safe_move(head, body@, d) ==> r == Some(d),
        !safe_move(head, body@, d) ==> match r {
            Some(e) => {
                &&& e < 4
                &&& safe_move(head, body@, e)
                &&& forall|f: usize| f < e ==> !safe_move(head, body@, f)
            },
            None => forall|f: usize| f < 4 ==> !safe_move(head, body@, f),
        },
{
    let (dx, dy) = Dir::from(d).dxy();
    let new_pos = (head.0 + dx, head.1 + dy);
    if is_safe_position(new_pos, body) {
        Some(d)
    } else {
        first_safe_dir(head, body)
    }
}

} // verus!
