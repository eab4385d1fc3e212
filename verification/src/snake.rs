//! The snake on the board: how it starts, where food appears, and how one move
//! plays out.

use std::collections::VecDeque;
use vstd::prelude::*;
use crate::geometry::{body_contains, in_field, same_pos, step, Dir, Pos, FIELD_SZ};
use crate::encoding::push_char;
use crate::random::gen_index;

verus! {

/// Moves without food after which the snake starves.
pub const MAX_STEPS: usize = 2000;

/// The longest stretch of recent head cells that is remembered.
pub const POS_HIST_LEN: usize = 20;

/// Detected loops after which the snake is stopped.
pub const MAX_LOOPS: usize = 15;

/// Why a snake stopped.
#[derive(Clone, Copy, Debug, PartialEq, Eq, Structural)]
pub enum DeathReason {
    /// The snake has not stopped.
    Unset,
    WallCollision,
    SelfCollision,
    Starvation,
    Looping,
}

impl DeathReason {
    /// The name under which the reason is reported.
    pub fn as_str(&self) -> (s: &'static str)
        ensures
            match *self {
                DeathReason::Unset => s@ == ""@,
                DeathReason::WallCollision => s@ == "wall_collision"@,
                DeathReason::SelfCollision => s@ == "self_collision"@,
                DeathReason::Starvation => s@ == "starvation"@,
                DeathReason::Looping => s@ == "looping"@,
            },
    {
        match *self {
            DeathReason::Unset => "",
            DeathReason::WallCollision => "wall_collision",
            DeathReason::SelfCollision => "self_collision",
            DeathReason::Starvation => "starvation",
            DeathReason::Looping => "looping",
        }
    }
}

/// What was measured on the snake's last move.
#[derive(Clone, Copy, Debug, PartialEq, Eq, Structural)]
pub struct SnakeStats {
    /// How often the oldest remembered head cell recurs among the remembered
    /// ones (0 while fewer than 8 are remembered).
    pub repeated: usize,
    /// Moves since the last apple.
    pub no_food: usize,
}

impl SnakeStats {
    /// Both measures at zero.
    pub fn new() -> (s: Self)
        ensures
            s.repeated == 0,
            s.no_food == 0,
    {
        SnakeStats { repeated: 0, no_food: 0 }
    }
}

/// A snake, its food and its record.
pub struct Snake {
    /// The cells of the body, head first.
    pub body: VecDeque<Pos>,
    pub dir: Dir,
    pub food: Pos,
    /// Moves since the last apple.
    pub steps: usize,
    pub eaten: usize,
    /// Moves on which the direction changed.
    pub turns: usize,
    pub alive: bool,
    pub reason: DeathReason,
    /// The most recent head cells, oldest first.
    pub pos_hist: VecDeque<Pos>,
    pub loop_cnt: usize,
    pub stats: SnakeStats,
    /// Whether the last move was found to close a loop.
    pub loop_det: bool,
}

/// No cell occurs twice.
pub open spec fn no_dups(s: Seq<Pos>) -> bool {
    forall|i: int, j: int| 0 <= i < j < s.len() ==> s[i] != s[j]
}

/// Two cells side by side: one step apart along a row or a column.
pub open spec fn adjacent(a: Pos, b: Pos) -> bool {
    abs(a.0 - b.0) + abs(a.1 - b.1) == 1
}

/// Each cell of the body lies next to the one after it.
pub open spec fn connected(body: Seq<Pos>) -> bool {
    forall|i: int| 0 <= i < body.len() - 1 ==> adjacent(#[trigger] body[i], body[i + 1])
}

/// A head put next to the old head of a connected body gives a connected
/// body, whether the tail stays or goes.
proof fn lemma_connected_after_move(body: Seq<Pos>, nh: Pos)
    requires
        body.len() > 0,
        connected(body),
        adjacent(nh, body[0]),
    ensures
        connected(seq![nh] + body),
        connected((seq![nh] + body).drop_last()),
{
    let b2 = seq![nh] + body;
    assert forall|i: int| 0 <= i < b2.len() - 1 implies adjacent(#[trigger] b2[i], b2[i + 1]) by {
        if i > 0 {
            assert(b2[i] == body[i - 1]);
            assert(b2[i + 1] == body[i]);
        }
    }
    let b3 = b2.drop_last();
    assert forall|i: int| 0 <= i < b3.len() - 1 implies adjacent(#[trigger] b3[i], b3[i + 1]) by {
        assert(b3[i] == b2[i]);
        assert(b3[i + 1] == b2[i + 1]);
    }
}

/// Some cell of the board lies outside the body.
pub open spec fn has_free_cell(body: Seq<Pos>) -> bool {
    exists|x: i32, y: i32| #![trigger body.contains((x, y))]
        0 <= x < FIELD_SZ && 0 <= y < FIELD_SZ && !body.contains((x, y))
}

/// How often `x` occurs in `s`.
pub open spec fn count_of(s: Seq<Pos>, x: Pos) -> nat
    decreases s.len(),
{
    if s.len() == 0 {
        0
    } else {
        count_of(s.drop_last(), x) + if s.last() == x {
            1nat
        } else {
            0nat
        }
    }
}

/// `h` with `p` appended, keeping only the last `cap` entries when it
/// overflows by one.
pub open spec fn bounded_push<T>(h: Seq<T>, p: T, cap: nat) -> Seq<T> {
    if h.len() + 1 > cap {
        h.push(p).drop_first()
    } else {
        h.push(p)
    }
}

/// A bounded push ends with the new entry, keeps a history within its cap
/// within it, and keeps the latest entries in order: the result is what
/// follows some number of the oldest entries of `h` with `p` appended.
pub proof fn lemma_bounded_push<T>(h: Seq<T>, p: T, cap: nat)
    requires
        cap > 0,
        h.len() <= cap,
    ensures
        ({
            let r = bounded_push(h, p, cap);
            &&& r.len() > 0
            &&& r.last() == p
            &&& r.len() <= cap
            &&& r.len() == if h.len() < cap {
                (h.len() + 1) as int
            } else {
                cap as int
            }
            &&& r == h.push(p).subrange(h.len() + 1 - r.len(), (h.len() + 1) as int)
        }),
{
    let r = bounded_push(h, p, cap);
    if h.len() + 1 > cap {
        assert(r =~= h.push(p).subrange(1, (h.len() + 1) as int));
    } else {
        assert(r =~= h.push(p).subrange(0, (h.len() + 1) as int));
    }
}

/// The direction after asking for the one numbered `dec`: a request to reverse
/// is ignored.
pub open spec fn next_dir(d: Dir, dec: usize) -> Dir {
    if Dir::from(dec) != d.opp() {
        Dir::from(dec)
    } else {
        d
    }
}

/// Appends `p` to `h`; when that makes `h` longer than `cap`, drops the oldest
/// entry.
pub fn push_bounded<T>(h: &mut VecDeque<T>, p: T, cap: usize)
    ensures
        final(h)@ == bounded_push(old(h)@, p, cap as nat),
{
    h.push_back(p);
    if h.len() > cap {
        h.pop_front();
    }
}

/// How often `x` occurs in the deque.
pub fn count_in(h: &VecDeque<Pos>, x: Pos) -> (n: usize)
    ensures
        n == count_of(h@, x),
{
    let len = h.len();
    let mut n: usize = 0;
    let mut i: usize = 0;
    while i < len
        invariant
            len == h@.len(),
            i <= len,
            n == count_of(h@.take(i as int), x),
            n <= i,
        decreases len - i,
    {
        proof {
            assert(h@.take(i + 1).drop_last() =~= h@.take(i as int));
        }
        if same_pos(h[i], x) {
            n = n + 1;
        }
        i = i + 1;
    }
    proof {
        assert(h@.take(len as int) =~= h@);
    }
    n
}

/// A cell of the board outside the body.
pub open spec fn free_cell(body: Seq<Pos>, p: Pos) -> bool {
    in_field(p) && !body.contains(p)
}

/// The cells of the board outside the body, column by column, each once.
pub fn free_cells(body: &VecDeque<Pos>) -> (free: Vec<Pos>)
    ensures
        no_dups(free@),
        forall|i: int| 0 <= i < free@.len() ==> free_cell(body@, #[trigger] free@[i]),
        forall|a: i32, b: i32|
            #![trigger body@.contains((a, b))]
            0 <= a < FIELD_SZ && 0 <= b < FIELD_SZ && !body@.contains((a, b))
                ==> free@.contains((a, b)),
{
    let mut free: Vec<Pos> = Vec::new();
    let mut x: i32 = 0;
    while x < FIELD_SZ
        invariant
            0 <= x <= FIELD_SZ,
            no_dups(free@),
            forall|i: int| 0 <= i < free@.len() ==> (#[trigger] free@[i]).0 < x,
            forall|i: int| 0 <= i < free@.len() ==> free_cell(body@, #[trigger] free@[i]),
            forall|a: i32, b: i32|
                #![trigger body@.contains((a, b))]
                0 <= a < x && 0 <= b < FIELD_SZ && !body@.contains((a, b))
                    ==> free@.contains((a, b)),
        decreases FIELD_SZ - x,
    {
        let mut y: i32 = 0;
        while y < FIELD_SZ
            invariant
                0 <= x < FIELD_SZ,
                0 <= y <= FIELD_SZ,
                no_dups(free@),
                forall|i: int|
                    0 <= i < free@.len() ==> (#[trigger] free@[i]).0 < x || (free@[i].0 == x
                        && free@[i].1 < y),
                forall|i: int| 0 <= i < free@.len() ==> free_cell(body@, #[trigger] free@[i]),
                forall|a: i32, b: i32|
                    #![trigger body@.contains((a, b))]
                    ((0 <= a < x && 0 <= b < FIELD_SZ) || (a == x && 0 <= b < y))
                        && !body@.contains((a, b)) ==> free@.contains((a, b)),
            decreases FIELD_SZ - y,
        {
            if !body_contains(body, (x, y)) {
                let ghost before = free@;
                free.push((x, y));
                proof {
                    assert(free@[free@.len() - 1] == (x, y));
                    assert forall|i: int| 0 <= i < free@.len() - 1 implies #[trigger] free@[i]
                        == before[i] by {}
                    assert forall|i: int, j: int| 0 <= i < j < free@.len() implies free@[i]
                        != free@[j] by {
                        if j == free@.len() - 1 {
                            assert(free@[i] == before[i]);
                        } else {
                            assert(free@[i] == before[i] && free@[j] == before[j]);
                        }
                    }
                    assert forall|a: i32, b: i32|
                        #![trigger body@.contains((a, b))]
                        ((0 <= a < x && 0 <= b < FIELD_SZ) || (a == x && 0 <= b < y + 1))
                            && !body@.contains((a, b)) implies free@.contains((a, b)) by {
                        if a == x && b == y {
                            assert(free@[free@.len() - 1] == (a, b));
                        } else {
                            let k = choose|k: int| 0 <= k < before.len() && before[k] == (a, b);
                            assert(free@[k] == (a, b));
                        }
                    }
                }
            }
            y = y + 1;
        }
        x = x + 1;
    }
    free
}

impl Snake {
    /// The invariant of every snake in play: the body holds three cells more
    /// than the apples eaten, all on the board and all different; the food lies
    /// on the board outside the body; at most 20 head cells are remembered; a
    /// snake still in play has neither starved nor looped too often.
    pub open spec fn wf(&self) -> bool {
        &&& self.board_ok()
        &&& self.pos_hist@.len() <= POS_HIST_LEN
        &&& self.alive ==> self.steps <= MAX_STEPS && self.loop_cnt <= MAX_LOOPS
    }

    /// The part of the invariant about the board: the body holds three cells
    /// more than the apples eaten, all on the board and all different, and the
    /// food lies on the board outside the body.
    pub open spec fn board_ok(&self) -> bool {
        &&& self.body@.len() == self.eaten + 3
        &&& forall|i: int| 0 <= i < self.body@.len() ==> #[trigger] in_field(self.body@[i])
        &&& no_dups(self.body@)
        &&& in_field(self.food)
        &&& !self.body@.contains(self.food)
    }

    /// The cell the head moves to on a move that asks for direction `dec`.
    pub open spec fn next_head(&self, dec: usize) -> Pos {
        step(self.body@[0], next_dir(self.dir, dec))
    }

    /// Whether the move that asks for `dec` reaches the food.
    pub open spec fn will_eat(&self, dec: usize) -> bool {
        self.alive && self.next_head(dec) == self.food
    }

    /// `self` is `old` with only the food changed.
    pub open spec fn same_but_food(&self, old: &Snake) -> bool {
        &&& self.body == old.body
        &&& self.dir == old.dir
        &&& self.steps == old.steps
        &&& self.eaten == old.eaten
        &&& self.turns == old.turns
        &&& self.alive == old.alive
        &&& self.reason == old.reason
        &&& self.pos_hist == old.pos_hist
        &&& self.loop_cnt == old.loop_cnt
        &&& self.stats == old.stats
        &&& self.loop_det == old.loop_det
    }

    /// The body a new snake starts with: three cells in a row, head at
    /// `(sx, sy)`, tail to its left.
    pub open spec fn start_body(sx: i32, sy: i32) -> Seq<Pos> {
        seq![(sx, sy), ((sx - 1) as i32, sy), ((sx - 2) as i32, sy)]
    }

    /// A snake of three cells in a row with its head on a random cell of columns
    /// and rows 5 to 14, heading right, with food on a random free cell.
    pub fn new() -> (s: Self)
        ensures
            s.wf(),
            connected(s.body@),
            (exists|sx: i32, sy: i32|
                5 <= sx < 15 && 5 <= sy < 15 && s.body@ == #[trigger] Snake::start_body(sx, sy)),
            s.dir == Dir::Right,
            s.steps == 0,
            s.eaten == 0,
            s.turns == 0,
            s.alive,
            s.reason == DeathReason::Unset,
            s.pos_hist@.len() == 0,
            s.loop_cnt == 0,
            s.stats.repeated == 0,
            s.stats.no_food == 0,
            !s.loop_det,
    {
        let sx: i32 = 5 + gen_index(10) as i32;
        let sy: i32 = 5 + gen_index(10) as i32;
        let mut b: VecDeque<Pos> = VecDeque::new();
        b.push_back((sx, sy));
        b.push_back((sx - 1, sy));
        b.push_back((sx - 2, sy));
        let mut s = Snake {
            body: b,
            dir: Dir::Right,
            food: (0, 0),
            steps: 0,
            eaten: 0,
            turns: 0,
            alive: true,
            reason: DeathReason::Unset,
            pos_hist: VecDeque::new(),
            loop_cnt: 0,
            stats: SnakeStats::new(),
            loop_det: false,
        };
        proof {
            assert(s.body@ =~= Snake::start_body(sx, sy));
            assert(!s.body@.contains((0i32, 0i32))) by {
                if s.body@.contains((0i32, 0i32)) {
                    let k = choose|k: int| 0 <= k < s.body@.len() && s.body@[k] == (0i32, 0i32);
                    assert(k == 0 || k == 1 || k == 2);
                }
            }
        }
        s.spawn_food();
        proof {
            assert(s.body@[0] == (sx, sy));
            assert(s.body@[1] == ((sx - 1) as i32, sy));
            assert(s.body@[2] == ((sx - 2) as i32, sy));
            assert(adjacent(s.body@[0], s.body@[1]));
            assert(adjacent(s.body@[1], s.body@[2]));
        }
        s
    }

    /// Places the food on a cell of the board outside the body, each such cell
    /// equally likely; nothing else changes. With no such cell the search
    /// would never end, so the `requires` leaves that out.
    pub fn spawn_food(&mut self)
        requires
            has_free_cell(old(self).body@),
        ensures
            final(self).same_but_food(old(self)),
            in_field(final(self).food),
            !final(self).body@.contains(final(self).food),
    {
        let free = free_cells(&self.body);
        proof {
            let (a, b) = choose|a: i32, b: i32|
                0 <= a < FIELD_SZ && 0 <= b < FIELD_SZ && !self.body@.contains((a, b));
            assert(!self.body@.contains((a, b)));
            assert(free@.contains((a, b)));
        }
        let i = gen_index(free.len());
        proof {
            assert(free_cell(self.body@, free@[i as int]));
        }
        self.food = free[i];
    }

    /// `self` is `old` stopped for `reason`, with nothing else changed but the
    /// direction and the count of turns.
    pub open spec fn crashed(&self, old: &Snake, reason: DeathReason) -> bool {
        &&& !self.alive
        &&& self.reason == reason
        &&& self.body == old.body
        &&& self.food == old.food
        &&& self.steps == old.steps
        &&& self.eaten == old.eaten
        &&& self.pos_hist == old.pos_hist
        &&& self.loop_cnt == old.loop_cnt
        &&& self.stats == old.stats
        &&& self.loop_det == old.loop_det
    }

    /// `self` is `old` after its head moved onto the free cell `nh`: the body
    /// grows by the apple if `nh` held it and otherwise keeps its length; the
    /// counts, the loop check and the end of the game follow the move.
    pub open spec fn moved_to(&self, old: &Snake, nh: Pos) -> bool {
        let ate = nh == old.food;
        let h = bounded_push(old.pos_hist@, nh, POS_HIST_LEN as nat);
        let rep: nat = if h.len() >= 8 {
            count_of(h, h[0])
        } else {
            0
        };
        let det = h.len() >= 8 && rep >= 4;
        let loops = old.loop_cnt + if det {
            1int
        } else {
            0int
        };
        let steps = if ate {
            0int
        } else {
            old.steps + 1
        };
        &&& self.body@ == (if ate {
            seq![nh] + old.body@
        } else {
            (seq![nh] + old.body@).drop_last()
        })
        &&& self.eaten == old.eaten + if ate {
            1int
        } else {
            0int
        }
        &&& self.steps == steps
        &&& (if ate {
            in_field(self.food) && !self.body@.contains(self.food)
        } else {
            self.food == old.food
        })
        &&& self.pos_hist@ == h
        &&& self.stats.repeated == rep
        &&& self.stats.no_food == steps
        &&& self.loop_det == det
        &&& self.loop_cnt == loops
        &&& self.alive == (steps <= MAX_STEPS && loops <= MAX_LOOPS)
        &&& self.reason == (if loops > MAX_LOOPS {
            DeathReason::Looping
        } else if steps > MAX_STEPS {
            DeathReason::Starvation
        } else {
            old.reason
        })
    }

    /// Moves the head onto the free cell `nh`: with the apple there, the body
    /// grows and new food appears; otherwise the tail follows. The moves since
    /// the last apple restart or count on.
    fn advance(&mut self, nh: Pos)
        requires
            old(self).board_ok(),
            in_field(nh),
            !old(self).body@.contains(nh),
            old(self).steps <= MAX_STEPS,
            nh == old(self).food ==> has_free_cell(seq![nh] + old(self).body@),
        ensures
            final(self).board_ok(),
            final(self).body@ == (if nh == old(self).food {
                seq![nh] + old(self).body@
            } else {
                (seq![nh] + old(self).body@).drop_last()
            }),
            final(self).eaten == old(self).eaten + if nh == old(self).food {
                1int
            } else {
                0int
            },
            final(self).steps == if nh == old(self).food {
                0int
            } else {
                old(self).steps + 1
            },
            nh != old(self).food ==> final(self).food == old(self).food,
            final(self).dir == old(self).dir,
            final(self).turns == old(self).turns,
            final(self).alive == old(self).alive,
            final(self).reason == old(self).reason,
            final(self).pos_hist == old(self).pos_hist,
            final(self).loop_cnt == old(self).loop_cnt,
            final(self).stats == old(self).stats,
            final(self).loop_det == old(self).loop_det,
    {
        let ghost o = *self;
        self.body.push_front(nh);
        let _ = self.body.len();
        proof {
            assert forall|i: int| 0 <= i < self.body@.len() implies #[trigger] in_field(
                self.body@[i],
            ) by {
                if i > 0 {
                    assert(self.body@[i] == o.body@[i - 1]);
                }
            }
            assert forall|i: int, j: int| 0 <= i < j < self.body@.len() implies self.body@[i]
                != self.body@[j] by {
                if i == 0 {
                    assert(self.body@[j] == o.body@[j - 1]);
                } else {
                    assert(self.body@[i] == o.body@[i - 1]);
                    assert(self.body@[j] == o.body@[j - 1]);
                }
            }
        }
        if same_pos(nh, self.food) {
            self.eaten += 1;
            self.steps = 0;
            self.spawn_food();
        } else {
            let ghost grown = self.body@;
            self.body.pop_back();
            self.steps += 1;
            proof {
                assert(self.body@ =~= grown.drop_last());
                if self.body@.contains(self.food) {
                    let k = choose|k: int| 0 <= k < self.body@.len() && self.body@[k] == self.food;
                    if k > 0 {
                        assert(o.body@[k - 1] == self.food);
                    }
                }
            }
        }
    }

    /// Remembers the new head cell, checks for a loop, and ends the game on
    /// starvation or on too many loops.
    fn record_move(&mut self, nh: Pos)
        requires
            old(self).pos_hist@.len() <= POS_HIST_LEN,
            old(self).loop_cnt <= MAX_LOOPS,
            old(self).alive,
        ensures
            ({
                let h = bounded_push(old(self).pos_hist@, nh, POS_HIST_LEN as nat);
                let rep: nat = if h.len() >= 8 {
                    count_of(h, h[0])
                } else {
                    0
                };
                let det = h.len() >= 8 && rep >= 4;
                let loops = old(self).loop_cnt + if det {
                    1int
                } else {
                    0int
                };
                &&& final(self).pos_hist@ == h
                &&& final(self).stats.repeated == rep
                &&& final(self).stats.no_food == old(self).steps
                &&& final(self).loop_det == det
                &&& final(self).loop_cnt == loops
                &&& final(self).alive == (old(self).steps <= MAX_STEPS && loops <= MAX_LOOPS)
                &&& final(self).reason == (if loops > MAX_LOOPS {
                    DeathReason::Looping
                } else if old(self).steps > MAX_STEPS {
                    DeathReason::Starvation
                } else {
                    old(self).reason
                })
            }),
            final(self).pos_hist@.len() <= POS_HIST_LEN,
            final(self).body == old(self).body,
            final(self).food == old(self).food,
            final(self).dir == old(self).dir,
            final(self).turns == old(self).turns,
            final(self).steps == old(self).steps,
            final(self).eaten == old(self).eaten,
    {
        push_bounded(&mut self.pos_hist, nh, POS_HIST_LEN);
        self.stats.repeated = 0;
        self.loop_det = false;
        if self.pos_hist.len() >= 8 {
            let first = self.pos_hist[0];
            self.stats.repeated = count_in(&self.pos_hist, first);
            if self.stats.repeated >= 4 {
                self.loop_cnt += 1;
                self.loop_det = true;
            }
        }
        self.stats.no_food = self.steps;
        if self.steps > MAX_STEPS {
            self.alive = false;
            self.reason = DeathReason::Starvation;
        }
        if self.loop_cnt > MAX_LOOPS {
            self.alive = false;
            self.reason = DeathReason::Looping;
        }
    }

    /// Plays one move that asks for the direction numbered `dec` (see
    /// `Dir::from`). A stopped snake does not move. A request to reverse is
    /// ignored; a change of direction counts as a turn. The head then steps
    /// forward: off the board it stops with `WallCollision`, into its own body
    /// with `SelfCollision`; otherwise it moves (see `moved_to`), eating the
    /// apple and getting new food if it was there.
    pub fn update(&mut self, dec: usize)
        requires
            old(self).wf(),
            old(self).alive && next_dir(old(self).dir, dec) != old(self).dir ==> old(self).turns
                < usize::MAX,
            old(self).will_eat(dec) ==> has_free_cell(seq![old(self).next_head(dec)] + old(self).body@),
        ensures
            final(self).wf(),
            !old(self).alive ==> *final(self) == *old(self),
            old(self).alive ==> final(self).dir == next_dir(old(self).dir, dec),
            old(self).alive ==> final(self).turns == old(self).turns + if next_dir(old(self).dir, dec)
                != old(self).dir {
                1int
            } else {
                0int
            },
            old(self).alive && !in_field(old(self).next_head(dec)) ==> final(self).crashed(
                old(self),
                DeathReason::WallCollision,
            ),
            old(self).alive && in_field(old(self).next_head(dec)) && old(self).body@.contains(
                old(self).next_head(dec),
            ) ==> final(self).crashed(old(self), DeathReason::SelfCollision),
            old(self).alive && in_field(old(self).next_head(dec)) && !old(self).body@.contains(
                old(self).next_head(dec),
            ) ==> final(self).moved_to(old(self), old(self).next_head(dec)),
            connected(old(self).body@) ==> connected(final(self).body@),
    {
        if !self.alive {
            return;
        }
        let nd = Dir::from(dec);
        if nd != self.dir.opp() {
            if nd != self.dir {
                self.turns += 1;
            }
            self.dir = nd;
        }
        let (dx, dy) = self.dir.dxy();
        proof {
            assert(in_field(self.body@[0]));
        }
        let h = self.body[0];
        let nh: Pos = (h.0 + dx, h.1 + dy);
        if nh.0 < 0 || nh.0 >= FIELD_SZ || nh.1 < 0 || nh.1 >= FIELD_SZ {
            self.alive = false;
            self.reason = DeathReason::WallCollision;
            return;
        }
        if body_contains(&self.body, nh) {
            self.alive = false;
            self.reason = DeathReason::SelfCollision;
            return;
        }
        proof {
            if connected(self.body@) {
                assert(adjacent(nh, self.body@[0]));
                lemma_connected_after_move(self.body@, nh);
            }
        }
        self.advance(nh);
        self.record_move(nh);
    }
}

impl Snake {
    /// Whether the move that asks for `dec` turns a snake in play whose count
    /// of turns is already at its largest value.
    pub fn turn_overflows(&self, dec: usize) -> (b: bool)
        ensures
            b == (self.alive && next_dir(self.dir, dec) != self.dir && self.turns == usize::MAX),
    {
        let nd = Dir::from(dec);
        let d = if nd != self.dir.opp() {
            nd
        } else {
            self.dir
        };
        self.alive && d != self.dir && self.turns == usize::MAX
    }

    /// Whether `update(dec)` may be called: a turn finds room for one more in
    /// the count of turns, and if the move reaches the food, some cell stays
    /// free for new food.
    pub fn update_allowed(&self, dec: usize) -> (b: bool)
        requires
            self.wf(),
        ensures
            b == ((self.alive && next_dir(self.dir, dec) != self.dir ==> self.turns < usize::MAX)
                && (self.will_eat(dec) ==> has_free_cell(seq![self.next_head(dec)] + self.body@))),
    {
        if !self.alive {
            return true;
        }
        let nd = Dir::from(dec);
        let d = if nd != self.dir.opp() {
            nd
        } else {
            self.dir
        };
        if d != self.dir && self.turns == usize::MAX {
            return false;
        }
        let (dx, dy) = d.dxy();
        proof {
            assert(in_field(self.body@[0]));
        }
        let h = self.body[0];
        let nh: Pos = (h.0 + dx, h.1 + dy);
        assert(nh == self.next_head(dec));
        if !same_pos(nh, self.food) {
            return true;
        }
        let free = free_cells(&self.body);
        let n = free.len();
        let mut i: usize = 0;
        while i < n
            invariant
                n == free@.len(),
                i <= n,
                forall|k: int| 0 <= k < i ==> free@[k] == nh,
                forall|k: int| 0 <= k < free@.len() ==> free_cell(self.body@, #[trigger] free@[k]),
                self.alive,
                d == next_dir(self.dir, dec),
                d != self.dir ==> self.turns < usize::MAX,
                nh == self.next_head(dec),
            decreases n - i,
        {
            if !same_pos(free[i], nh) {
                proof {
                    let c = free@[i as int];
                    assert(free_cell(self.body@, c));
                    assert(!(seq![nh] + self.body@).contains(c)) by {
                        if (seq![nh] + self.body@).contains(c) {
                            let k = choose|k: int|
                                0 <= k < (seq![nh] + self.body@).len() && (seq![nh]
                                    + self.body@)[k] == c;
                            if k > 0 {
                                assert(self.body@[k - 1] == c);
                            }
                        }
                    }
                    assert(!(seq![nh] + self.body@).contains((c.0, c.1)));
                    assert(0 <= c.0 < FIELD_SZ && 0 <= c.1 < FIELD_SZ);
                    assert(has_free_cell(seq![nh] + self.body@));
                }
                return true;
            }
            i = i + 1;
        }
        proof {
            if has_free_cell(seq![nh] + self.body@) {
                let (a, b) = choose|a: i32, b: i32|
                    0 <= a < FIELD_SZ && 0 <= b < FIELD_SZ && !(seq![nh] + self.body@).contains(
                        (a, b),
                    );
                assert((seq![nh] + self.body@)[0] == nh);
                assert(!self.body@.contains((a, b))) by {
                    if self.body@.contains((a, b)) {
                        let k = choose|k: int| 0 <= k < self.body@.len() && self.body@[k] == (a, b);
                        assert((seq![nh] + self.body@)[k + 1] == (a, b));
                    }
                }
                assert(free@.contains((a, b)));
                let k = choose|k: int| 0 <= k < free@.len() && free@[k] == (a, b);
                assert(free@[k] == nh);
            }
        }
        false
    }
}

/// The eight directions in which a snake looks, as steps: up, down, left,
/// right, then the four diagonals.
#[verifier::allow_in_spec]
pub fn ray_offset(k: usize) -> (i32, i32)
    returns
        if k == 0 {
            (0i32, -1i32)
        } else if k == 1 {
            (0i32, 1i32)
        } else if k == 2 {
            (-1i32, 0i32)
        } else if k == 3 {
            (1i32, 0i32)
        } else if k == 4 {
            (-1i32, -1i32)
        } else if k == 5 {
            (-1i32, 1i32)
        } else if k == 6 {
            (1i32, -1i32)
        } else {
            (1i32, 1i32)
        },
{
    if k == 0 {
        (0, -1)
    } else if k == 1 {
        (0, 1)
    } else if k == 2 {
        (-1, 0)
    } else if k == 3 {
        (1, 0)
    } else if k == 4 {
        (-1, -1)
    } else if k == 5 {
        (-1, 1)
    } else if k == 6 {
        (1, -1)
    } else {
        (1, 1)
    }
}

/// The sign of `v`: -1, 0 or 1.
#[verifier::allow_in_spec]
pub fn sign_of(v: i32) -> i32
    returns
        if v > 0 {
            1i32
        } else if v < 0 {
            -1i32
        } else {
            0i32
        },
{
    if v > 0 {
        1
    } else if v < 0 {
        -1
    } else {
        0
    }
}

/// The cell `s` steps from `head` along `d`.
pub open spec fn cell_at(head: Pos, d: (i32, i32), s: int) -> Pos {
    ((head.0 + s * d.0) as i32, (head.1 + s * d.1) as i32)
}

/// The first step, from `s` up to 19, that leaves the board along `d`; 0 when
/// none does.
pub open spec fn wall_from(head: Pos, d: (i32, i32), s: int) -> int
    decreases 20 - s,
{
    if s >= 20 {
        0
    } else if !in_field(cell_at(head, d, s)) {
        s
    } else {
        wall_from(head, d, s + 1)
    }
}

/// The first step, from `s` up to 19 and before the edge of the board, that
/// meets the body along `d`; 0 when none does.
pub open spec fn body_from(body: Seq<Pos>, head: Pos, d: (i32, i32), s: int) -> int
    decreases 20 - s,
{
    if s >= 20 {
        0
    } else if !in_field(cell_at(head, d, s)) {
        0
    } else if body.contains(cell_at(head, d, s)) {
        s
    } else {
        body_from(body, head, d, s + 1)
    }
}

/// Whether the food lies in the general direction `d` from `head` (on the
/// same side in each coordinate that `d` moves along) and not on `head`.
pub open spec fn food_seen(head: Pos, food: Pos, d: (i32, i32)) -> bool {
    let fdx = food.0 - head.0;
    let fdy = food.1 - head.1;
    &&& (sign_of(fdx as i32) == sign_of(d.0) || d.0 == 0)
    &&& (sign_of(fdy as i32) == sign_of(d.1) || d.1 == 0)
    &&& abs(fdx) + abs(fdy) > 0
}

/// Food is seen along a ray exactly when it lies off the head and, in each
/// coordinate the ray moves along, strictly on the ray's side: a diagonal ray
/// sees it only when it is off both axes of the head on that side, and a
/// straight ray sees anything on its side, in any column or row.
pub proof fn lemma_food_seen_sides(head: Pos, food: Pos, d: (i32, i32))
    requires
        -1 <= d.0 <= 1,
        -1 <= d.1 <= 1,
        in_field(head),
        in_field(food),
    ensures
        food_seen(head, food, d) <==> {
            &&& food != head
            &&& (d.0 == 0 || (d.0 == 1 && food.0 > head.0) || (d.0 == -1 && food.0 < head.0))
            &&& (d.1 == 0 || (d.1 == 1 && food.1 > head.1) || (d.1 == -1 && food.1 < head.1))
        },
{
}

/// The wall reading along a ray is the first step, from `s` on and below 20,
/// whose cell is off the board, every step before it being on the board; 0
/// when every step from `s` up to 19 is on the board.
pub proof fn lemma_wall_from_first(head: Pos, d: (i32, i32), s: int)
    requires
        1 <= s <= 20,
    ensures
        ({
            let w = wall_from(head, d, s);
            &&& w == 0 ==> forall|t: int| s <= t < 20 ==> in_field(#[trigger] cell_at(head, d, t))
            &&& w != 0 ==> {
                &&& s <= w < 20
                &&& !in_field(cell_at(head, d, w))
                &&& forall|t: int| s <= t < w ==> in_field(#[trigger] cell_at(head, d, t))
            }
        }),
    decreases 20 - s,
{
    if s < 20 && in_field(cell_at(head, d, s)) {
        lemma_wall_from_first(head, d, s + 1);
    }
}

/// The body reading along a ray is the first step, from `s` on and below 20,
/// that meets the body while every step up to it is on the board, the steps
/// before it missing the body; 0 when no step meets the body before the edge
/// or step 20.
pub proof fn lemma_body_from_first(body: Seq<Pos>, head: Pos, d: (i32, i32), s: int)
    requires
        1 <= s <= 20,
    ensures
        ({
            let b = body_from(body, head, d, s);
            &&& b == 0 ==> forall|t: int|
                s <= t < 20 && (forall|u: int| s <= u <= t ==> in_field(#[trigger] cell_at(head, d, u)))
                    ==> !body.contains(#[trigger] cell_at(head, d, t))
            &&& b != 0 ==> {
                &&& s <= b < 20
                &&& in_field(cell_at(head, d, b))
                &&& body.contains(cell_at(head, d, b))
                &&& forall|t: int|
                    s <= t < b ==> in_field(#[trigger] cell_at(head, d, t)) && !body.contains(
                        cell_at(head, d, t),
                    )
            }
        }),
    decreases 20 - s,
{
    if s < 20 && in_field(cell_at(head, d, s)) && !body.contains(cell_at(head, d, s)) {
        lemma_body_from_first(body, head, d, s + 1);
    }
}

/// A move onto a free cell puts the head there and keeps the rest of the body
/// in order: the body grows by one cell exactly when the apple was there,
/// the apples count up by one then, and the moves since the last apple start
/// again at 0 then and count up by one otherwise.
pub proof fn lemma_move_shape(new: Snake, old: Snake, nh: Pos)
    requires
        new.moved_to(&old, nh),
        old.body@.len() > 0,
    ensures
        new.body@.len() > 0,
        new.body@[0] == nh,
        nh == old.food ==> new.body@.len() == old.body@.len() + 1 && new.eaten == old.eaten + 1
            && new.steps == 0,
        nh != old.food ==> new.body@.len() == old.body@.len() && new.eaten == old.eaten
            && new.steps == old.steps + 1,
        forall|i: int| 1 <= i < new.body@.len() ==> #[trigger] new.body@[i] == old.body@[i - 1],
{
    assert((seq![nh] + old.body@)[0] == nh);
    assert forall|i: int| 1 <= i < new.body@.len() implies #[trigger] new.body@[i] == old.body@[i - 1] by {
        assert((seq![nh] + old.body@)[i] == old.body@[i - 1]);
    }
}

/// The eight rays, step by step: up, down, left, right, then up-left,
/// down-left, up-right and down-right (rows grow downwards).
pub proof fn lemma_ray_offsets()
    ensures
        ray_offset(0) == (0i32, -1i32),
        ray_offset(1) == (0i32, 1i32),
        ray_offset(2) == (-1i32, 0i32),
        ray_offset(3) == (1i32, 0i32),
        ray_offset(4) == (-1i32, -1i32),
        ray_offset(5) == (-1i32, 1i32),
        ray_offset(6) == (1i32, -1i32),
        ray_offset(7) == (1i32, 1i32),
{
}

/// The absolute value.
pub open spec fn abs(v: int) -> int {
    if v < 0 {
        -v
    } else {
        v
    }
}

/// What the snake sees along one of its eight directions.
#[derive(Clone, Copy, Debug, PartialEq, Eq, Structural)]
pub struct RayReading {
    /// Steps to the edge of the board (0 when it lies 20 or more away).
    pub wall: i32,
    /// Steps to the nearest cell of the body before the edge (0 when none).
    pub body: i32,
    /// Whether the food lies in this general direction.
    pub food_seen: bool,
}

impl Snake {
    /// The wall and body distances along `d` from the head.
    fn cast_ray(&self, d: (i32, i32)) -> (r: (i32, i32))
        requires
            self.wf(),
            -1 <= d.0 <= 1,
            -1 <= d.1 <= 1,
        ensures
            r.0 == wall_from(self.body@[0], d, 1),
            r.1 == body_from(self.body@, self.body@[0], d, 1),
    {
        proof {
            assert(in_field(self.body@[0]));
        }
        let head = self.body[0];
        let mut w: i32 = 0;
        let mut b: i32 = 0;
        let mut x: i32 = head.0;
        let mut y: i32 = head.1;
        let mut step: i32 = 1;
        while step < FIELD_SZ
            invariant_except_break
                x == head.0 + (step - 1) * d.0,
                y == head.1 + (step - 1) * d.1,
                0 <= x < FIELD_SZ,
                0 <= y < FIELD_SZ,
                w == 0,
                wall_from(head, d, 1) == wall_from(head, d, step as int),
                (b == 0 && body_from(self.body@, head, d, 1) == body_from(
                    self.body@,
                    head,
                    d,
                    step as int,
                )) || (b != 0 && body_from(self.body@, head, d, 1) == b),
            invariant
                1 <= step <= FIELD_SZ,
                in_field(head),
                self.body@.len() > 0,
                head == self.body@[0],
                -1 <= d.0 <= 1,
                -1 <= d.1 <= 1,
            ensures
                w == wall_from(head, d, 1),
                b == body_from(self.body@, head, d, 1),
            decreases FIELD_SZ - step,
        {
            x += d.0;
            y += d.1;
            assert(cell_at(head, d, step as int) == (x, y)) by (nonlinear_arith)
                requires
                    x == head.0 + (step - 1) * d.0 + d.0,
                    y == head.1 + (step - 1) * d.1 + d.1,
            ;
            if x < 0 || x >= FIELD_SZ || y < 0 || y >= FIELD_SZ {
                w = step;
                break;
            }
            if b == 0 && body_contains(&self.body, (x, y)) {
                b = step;
            }
            assert(step * d.0 == (step - 1) * d.0 + d.0 && step * d.1 == (step - 1) * d.1 + d.1)
                by (nonlinear_arith);
            step = step + 1;
        }
        (w, b)
    }

    /// What the snake sees along each of its eight directions, in the order of
    /// `ray_offset`.
    pub fn sense_rays(&self) -> (rays: Vec<RayReading>)
        requires
            self.wf(),
        ensures
            rays@.len() == 8,
            forall|k: int|
                0 <= k < 8 ==> (#[trigger] rays@[k]).wall == wall_from(
                    self.body@[0],
                    ray_offset(k as usize),
                    1,
                ) && rays@[k].body == body_from(self.body@, self.body@[0], ray_offset(k as usize), 1)
                    && rays@[k].food_seen == food_seen(
                    self.body@[0],
                    self.food,
                    ray_offset(k as usize),
                ),
    {
        proof {
            assert(in_field(self.body@[0]));
        }
        let head = self.body[0];
        let fdx = self.food.0 - head.0;
        let fdy = self.food.1 - head.1;
        let fdist = abs_i32(fdx) + abs_i32(fdy);
        let mut rays: Vec<RayReading> = Vec::new();
        let mut k: usize = 0;
        while k < 8
            invariant
                k <= 8,
                self.wf(),
                head == self.body@[0],
                fdx == self.food.0 - head.0,
                fdy == self.food.1 - head.1,
                fdist == abs(fdx as int) + abs(fdy as int),
                rays@.len() == k,
                forall|j: int|
                    0 <= j < k ==> (#[trigger] rays@[j]).wall == wall_from(
                        self.body@[0],
                        ray_offset(j as usize),
                        1,
                    ) && rays@[j].body == body_from(
                        self.body@,
                        self.body@[0],
                        ray_offset(j as usize),
                        1,
                    ) && rays@[j].food_seen == food_seen(
                        self.body@[0],
                        self.food,
                        ray_offset(j as usize),
                    ),
            decreases 8 - k,
        {
            let d = ray_offset(k);
            let (w, b) = self.cast_ray(d);
            let seen = (sign_of(fdx) == sign_of(d.0) || d.0 == 0) && (sign_of(fdy) == sign_of(d.1)
                || d.1 == 0) && fdist > 0;
            rays.push(RayReading { wall: w, body: b, food_seen: seen });
            k = k + 1;
        }
        rays
    }

    /// The number of rows plus columns between the head and the food.
    pub fn food_distance(&self) -> (n: i32)
        requires
            self.wf(),
        ensures
            n == abs(self.food.0 - self.body@[0].0) + abs(self.food.1 - self.body@[0].1),
    {
        proof {
            assert(in_field(self.body@[0]));
        }
        let head = self.body[0];
        abs_i32(self.food.0 - head.0) + abs_i32(self.food.1 - head.1)
    }
}

impl Snake {
    /// What a cell of the board shows: `@` for the head, `o` for the rest of
    /// the body, `*` for the food, a blank otherwise.
    pub open spec fn glyph(&self, p: Pos) -> char {
        if self.body@.len() > 0 && self.body@[0] == p {
            '@'
        } else if self.body@.contains(p) {
            'o'
        } else if self.food == p {
            '*'
        } else {
            ' '
        }
    }

    /// Row `y` of the board as drawn: each of its cells, left to right, as its
    /// glyph followed by a blank.
    pub open spec fn row_text(&self, y: i32) -> Seq<char> {
        Seq::new(
            (2 * FIELD_SZ) as nat,
            |i: int|
                if i % 2 == 0 {
                    self.glyph(((i / 2) as i32, y))
                } else {
                    ' '
                },
        )
    }

    /// The glyph of one cell.
    fn glyph_at(&self, p: Pos) -> (c: char)
        ensures
            c == self.glyph(p),
    {
        if self.body.len() > 0 && same_pos(self.body[0], p) {
            '@'
        } else if body_contains(&self.body, p) {
            'o'
        } else if same_pos(self.food, p) {
            '*'
        } else {
            ' '
        }
    }

    /// Row `y` of the board, as `row_text` gives it.
    pub fn board_row(&self, y: i32) -> (row: String)
        ensures
            row@ == self.row_text(y),
    {
        let mut row = String::new();
        let mut x: i32 = 0;
        proof {
            assert(row@ =~= self.row_text(y).take(0));
        }
        while x < FIELD_SZ
            invariant
                0 <= x <= FIELD_SZ,
                row@ == self.row_text(y).take(2 * x),
            decreases FIELD_SZ - x,
        {
            let c = self.glyph_at((x, y));
            push_char(&mut row, c);
            push_char(&mut row, ' ');
            proof {
                let t = self.row_text(y);
                assert(t[2 * x] == c);
                assert(t[2 * x + 1] == ' ');
                assert(row@ =~= t.take(2 * x + 2));
            }
            x = x + 1;
        }
        proof {
            assert(self.row_text(y).take(2 * FIELD_SZ) =~= self.row_text(y));
        }
        row
    }
}

/// The absolute value of a difference of two board coordinates.
fn abs_i32(v: i32) -> (r: i32)
    requires
        -FIELD_SZ < v < FIELD_SZ,
    ensures
        r == abs(v as int),
{
    if v < 0 {
        -v
    } else {
        v
    }
}

/// A snake never turns straight back: the direction after a move is never the
/// reverse of the one before.
pub proof fn lemma_never_reverses(d: Dir, dec: usize)
    ensures
        next_dir(d, dec) != d.opp(),
{
}

} // verus!
