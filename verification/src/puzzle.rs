//! The Towers-of-Hanoi state machine.
//!
//! Three rods hold disks, identified by their widths in fixed-point clip
//! units; on every rod the widths strictly decrease from bottom to top.  The
//! scheduler alternates between moving the globally smallest disk one rod to
//! the right (round robin) and making the single legal move between the two
//! other rods.  The puzzle counts as solved as soon as rod 0 is empty.

use vstd::prelude::*;

verus! {

/// A rod position, left to right.
pub enum Rod {
    Left,
    Middle,
    Right,
}

/// Mathematical image of a `Puzzle`: the three rods bottom-to-top, the rod
/// the smallest disk sits on, whose turn it is, and the solved flag.
pub ghost struct PuzzleV {
    pub rods: Seq<Seq<i32>>,
    pub smallest_pos: int,
    pub smallest_move: bool,
    pub solved: bool,
}

/// Disk widths strictly decrease from the bottom of a rod to its top.
pub open spec fn rod_sorted(rod: Seq<i32>) -> bool {
    forall|i: int, j: int| 0 <= i < j < rod.len() ==> rod[i] > rod[j]
}

/// Validity of a puzzle state: three rods, a real rod index, and no disk
/// resting on a strictly smaller one.
pub open spec fn wf_state(s: PuzzleV) -> bool {
    &&& s.rods.len() == 3
    &&& 0 <= s.smallest_pos < 3
    &&& rod_sorted(s.rods[0])
    &&& rod_sorted(s.rods[1])
    &&& rod_sorted(s.rods[2])
}

/// A move from `from` to `to` is legal: the source holds a disk and the
/// destination is empty or its top disk is strictly larger.
pub open spec fn can_move(rods: Seq<Seq<i32>>, from: int, to: int) -> bool {
    rods[from].len() > 0 && (rods[to].len() == 0 || rods[to].last() > rods[from].last())
}

/// The rods after attempting a move from `from` to `to`: the top disk of
/// `from` lands on `to` if the move is legal, and nothing changes otherwise.
pub open spec fn apply_move(rods: Seq<Seq<i32>>, from: int, to: int) -> Seq<Seq<i32>> {
    if can_move(rods, from, to) {
        let disk = rods[from].last();
        rods.update(from, rods[from].drop_last()).update(to, rods[to].push(disk))
    } else {
        rods
    }
}

/// One scheduler step.  On a smallest-move turn the smallest disk's rod
/// feeds `(pos + 1) % 3` and the tracked position advances there; otherwise
/// the two rods not holding the smallest disk exchange their one legal move,
/// trying `(pos + 1) % 3` into `(pos + 2) % 3` first.  The turn flag toggles
/// either way, and the state is solved once rod 0 is empty.
pub open spec fn step_spec(s: PuzzleV) -> PuzzleV {
    let rods = if s.smallest_move {
        apply_move(s.rods, s.smallest_pos, (s.smallest_pos + 1) % 3)
    } else {
        let first = (s.smallest_pos + 1) % 3;
        let second = (s.smallest_pos + 2) % 3;
        if can_move(s.rods, first, second) {
            apply_move(s.rods, first, second)
        } else {
            apply_move(s.rods, second, first)
        }
    };
    let pos = if s.smallest_move { (s.smallest_pos + 1) % 3 } else { s.smallest_pos };
    PuzzleV {
        rods: rods,
        smallest_pos: pos,
        smallest_move: !s.smallest_move,
        solved: s.solved || rods[0].len() == 0,
    }
}

/// The initial state: `n` disks on rod 0, widths strictly decreasing upward,
/// the other rods empty, the smallest-move turn first.
pub open spec fn init_state(n: nat) -> PuzzleV {
    PuzzleV {
        rods: seq![
            Seq::new(n, |i: int| (460 - 30 * i) as i32),
            Seq::<i32>::empty(),
            Seq::<i32>::empty(),
        ],
        smallest_pos: 0,
        smallest_move: true,
        solved: false,
    }
}

/// The puzzle: three rods of disk widths, the rod holding the smallest disk,
/// whose turn the next step is, and whether rod 0 has been emptied.
pub struct Puzzle {
    pub rod0: Vec<i32>,
    pub rod1: Vec<i32>,
    pub rod2: Vec<i32>,
    pub smallest_pos: usize,
    pub smallest_move: bool,
    pub solved: bool,
}

impl View for Puzzle {
    type V = PuzzleV;

    open spec fn view(&self) -> PuzzleV {
        PuzzleV {
            rods: seq![self.rod0@, self.rod1@, self.rod2@],
            smallest_pos: self.smallest_pos as int,
            smallest_move: self.smallest_move,
            solved: self.solved,
        }
    }
}

impl Puzzle {
    /// Validity of this puzzle value.
    pub open spec fn wf(&self) -> bool {
        wf_state(self@)
    }

    /// A fresh puzzle with `n` disks stacked on rod 0, widest at the bottom.
    /// The bound on `n` only keeps the width arithmetic inside `i32`.
    pub fn new(n: usize) -> (p: Puzzle)
        requires
            n <= 100_000,
        ensures
            p@ == init_state(n as nat),
            p.wf(),
    {
        let mut rod0: Vec<i32> = Vec::new();
        let mut i: usize = 0;
        while i < n
            invariant
                i <= n,
                n <= 100_000,
                rod0@ == Seq::new(i as nat, |k: int| (460 - 30 * k) as i32),
            decreases n - i,
        {
            let width: i32 = 460 - 30 * (i as i32);
            rod0.push(width);
            proof {
                assert(rod0@ =~= Seq::new((i + 1) as nat, |k: int| (460 - 30 * k) as i32));
            }
            i = i + 1;
        }
        let p = Puzzle {
            rod0,
            rod1: Vec::new(),
            rod2: Vec::new(),
            smallest_pos: 0,
            smallest_move: true,
            solved: false,
        };
        proof {
            assert(p@.rods[0] =~= init_state(n as nat).rods[0]);
            assert(p@.rods =~= init_state(n as nat).rods);
            assert(p@ == init_state(n as nat));
            assert forall|a: int, b: int| 0 <= a < b < p@.rods[0].len()
                implies p@.rods[0][a] > p@.rods[0][b] by {
                assert(p@.rods[0][a] == 460 - 30 * a);
                assert(p@.rods[0][b] == 460 - 30 * b);
            }
        }
        p
    }

    /// The disks on rod `i`, bottom to top.
    pub fn rod(&self, i: usize) -> (r: &Vec<i32>)
        requires
            i < 3,
        ensures
            r@ == self@.rods[i as int],
    {
        if i == 0 {
            &self.rod0
        } else if i == 1 {
            &self.rod1
        } else {
            &self.rod2
        }
    }

    /// The width of the top disk of rod `i`, if the rod holds one.
    fn top(&self, i: usize) -> (t: Option<i32>)
        requires
            i < 3,
        ensures
            match t {
                Some(d) => self@.rods[i as int].len() > 0 && d == self@.rods[i as int].last(),
                None => self@.rods[i as int].len() == 0,
            },
    {
        let r = self.rod(i);
        if r.len() > 0 {
            Some(r[r.len() - 1])
        } else {
            None
        }
    }

    /// Remove and return the top disk of rod `i`.
    fn pop_rod(&mut self, i: usize) -> (d: i32)
        requires
            i < 3,
            old(self)@.rods[i as int].len() > 0,
        ensures
            d == old(self)@.rods[i as int].last(),
            final(self)@ == (PuzzleV {
                rods: old(self)@.rods.update(i as int, old(self)@.rods[i as int].drop_last()),
                ..old(self)@
            }),
    {
        let d = if i == 0 {
            self.rod0.pop().unwrap()
        } else if i == 1 {
            self.rod1.pop().unwrap()
        } else {
            self.rod2.pop().unwrap()
        };
        proof {
            assert(final(self)@.rods =~= old(self)@.rods.update(
                i as int, old(self)@.rods[i as int].drop_last()));
        }
        d
    }

    /// Put disk `d` on top of rod `i`.
    fn push_rod(&mut self, i: usize, d: i32)
        requires
            i < 3,
        ensures
            final(self)@ == (PuzzleV {
                rods: old(self)@.rods.update(i as int, old(self)@.rods[i as int].push(d)),
                ..old(self)@
            }),
    {
        if i == 0 {
            self.rod0.push(d);
        } else if i == 1 {
            self.rod1.push(d);
        } else {
            self.rod2.push(d);
        }
        proof {
            assert(final(self)@.rods =~= old(self)@.rods.update(
                i as int, old(self)@.rods[i as int].push(d)));
        }
    }

    /// Runtime test of `wf`, for callers that cannot establish it by proof.
    pub fn is_well_formed(&self) -> (b: bool)
        ensures
            b == self.wf(),
    {
        self.smallest_pos < 3 && rod_is_sorted(&self.rod0) && rod_is_sorted(&self.rod1)
            && rod_is_sorted(&self.rod2)
    }

    /// Attempt to move the top disk of rod `from` onto rod `to`.  The move
    /// happens, and `true` comes back, exactly when the source holds a disk
    /// and the destination is empty or topped by a strictly larger disk.
    pub fn move_disk(&mut self, from: usize, to: usize) -> (moved: bool)
        requires
            from < 3,
            to < 3,
        ensures
            moved == can_move(old(self)@.rods, from as int, to as int),
            final(self)@ == (PuzzleV {
                rods: apply_move(old(self)@.rods, from as int, to as int),
                ..old(self)@
            }),
    {
        let src = self.top(from);
        match src {
            None => false,
            Some(disk) => {
                let legal = match self.top(to) {
                    None => true,
                    Some(dest_top) => dest_top > disk,
                };
                if legal {
                    let d = self.pop_rod(from);
                    self.push_rod(to, d);
                    proof {
                        assert(final(self)@.rods =~= apply_move(
                            old(self)@.rods, from as int, to as int));
                    }
                    true
                } else {
                    false
                }
            },
        }
    }

    /// One scheduler step, exactly `step_spec` on the model: the turn flag
    /// toggles on every call, whether or not a disk could move.
    pub fn do_move(&mut self)
        requires
            old(self).wf(),
        ensures
            final(self)@ == step_spec(old(self)@),
            final(self).wf(),
            final(self).smallest_move == !old(self).smallest_move,
    {
        if self.smallest_move {
            let from = self.smallest_pos;
            let to = (self.smallest_pos + 1) % 3;
            self.move_disk(from, to);
            self.smallest_pos = to;
        } else {
            let first = (self.smallest_pos + 1) % 3;
            let second = (self.smallest_pos + 2) % 3;
            if !self.move_disk(first, second) {
                self.move_disk(second, first);
            }
        }
        self.smallest_move = !self.smallest_move;
        if self.rod0.len() == 0 {
            self.solved = true;
        }
        proof {
            lemma_step_preserves_sorted(old(self)@);
        }
    }
}

/// Runtime test of `rod_sorted`: each disk is strictly narrower than the one
/// below it.
fn rod_is_sorted(rod: &Vec<i32>) -> (b: bool)
    ensures
        b == rod_sorted(rod@),
{
    let mut i: usize = 1;
    while i < rod.len()
        invariant
            1 <= i,
            forall|a: int, b: int| 0 <= a < b < i && b < rod@.len() ==> rod@[a] > rod@[b],
        decreases rod@.len() - i,
    {
        if rod[i - 1] <= rod[i] {
            return false;
        }
        proof {
            assert forall|a: int, b: int| 0 <= a < b < i + 1 && b < rod@.len()
                implies rod@[a] > rod@[b] by {
                if b == i {
                    assert(rod@[a] >= rod@[i - 1]);
                }
            }
        }
        i = i + 1;
    }
    true
}

/// Placing a disk on an empty rod, or on a strictly larger top disk, keeps
/// the rod strictly decreasing.
proof fn lemma_push_sorted(rod: Seq<i32>, d: i32)
    requires
        rod_sorted(rod),
        rod.len() == 0 || rod.last() > d,
    ensures
        rod_sorted(rod.push(d)),
{
    let r = rod.push(d);
    assert forall|i: int, j: int| 0 <= i < j < r.len() implies r[i] > r[j] by {
        if j < rod.len() {
            assert(r[i] == rod[i] && r[j] == rod[j]);
        } else {
            assert(r[j] == d);
            assert(rod.last() == rod[rod.len() - 1]);
            if i < rod.len() - 1 {
                assert(rod[i] > rod[rod.len() - 1]);
            }
        }
    }
}

/// Removing the top disk of a rod keeps it strictly decreasing.
proof fn lemma_drop_sorted(rod: Seq<i32>)
    requires
        rod_sorted(rod),
        rod.len() > 0,
    ensures
        rod_sorted(rod.drop_last()),
{
}

/// A legal move preserves validity: in particular it never places a disk on
/// a strictly smaller one.
pub proof fn lemma_move_preserves_sorted(s: PuzzleV, from: int, to: int)
    requires
        wf_state(s),
        0 <= from < 3,
        0 <= to < 3,
    ensures
        wf_state(PuzzleV { rods: apply_move(s.rods, from, to), ..s }),
{
    if can_move(s.rods, from, to) {
        assert(from != to);
        lemma_drop_sorted(s.rods[from]);
        lemma_push_sorted(s.rods[to], s.rods[from].last());
    }
}

/// Law: after every step each rod is still strictly decreasing from bottom
/// to top, so no disk ever rests on a strictly smaller one.
pub proof fn lemma_step_preserves_sorted(s: PuzzleV)
    requires
        wf_state(s),
    ensures
        wf_state(step_spec(s)),
{
    if s.smallest_move {
        lemma_move_preserves_sorted(s, s.smallest_pos, (s.smallest_pos + 1) % 3);
    } else {
        let first = (s.smallest_pos + 1) % 3;
        let second = (s.smallest_pos + 2) % 3;
        if can_move(s.rods, first, second) {
            lemma_move_preserves_sorted(s, first, second);
        } else {
            lemma_move_preserves_sorted(s, second, first);
        }
    }
}

} // verus!
