//! Proofs about whole runs of the puzzle scheduler.
//!
//! The central law: starting from `n` disks on rod 0, the alternating-move
//! scheduler empties rod 0 — and thereby reaches the solved state — after
//! exactly `pow2(n - 1)` steps, never earlier.  At that point the `n - 1`
//! smaller disks sit, in order, on one of the other rods and the widest disk
//! alone on the remaining one.
//!
//! The proof is the classical one: a tower of the `k` smallest disks in play
//! travels from its rod to a fixed destination in `pow2(k) - 1` steps, by
//! moving the `k - 1` smallest across, carrying the `k`-th over, and moving
//! the `k - 1` smallest back on top of it.

use vstd::prelude::*;
use crate::puzzle::PuzzleV;
use crate::puzzle::apply_move;
use crate::puzzle::can_move;
use crate::puzzle::init_state;
use crate::puzzle::lemma_step_preserves_sorted;
use crate::puzzle::rod_sorted;
use crate::puzzle::step_spec;
use crate::puzzle::wf_state;

verus! {

/// The state after `n` scheduler steps.
pub open spec fn run(s: PuzzleV, n: nat) -> PuzzleV
    decreases n,
{
    if n == 0 {
        s
    } else {
        step_spec(run(s, (n - 1) as nat))
    }
}

/// Two to the power `n`.
pub open spec fn pow2(n: nat) -> nat
    decreases n,
{
    if n == 0 {
        1
    } else {
        2 * pow2((n - 1) as nat)
    }
}

proof fn lemma_pow2_pos(n: nat)
    ensures
        pow2(n) >= 1,
    decreases n,
{
    if n > 0 {
        lemma_pow2_pos((n - 1) as nat);
    }
}

proof fn lemma_run_add(s: PuzzleV, m: nat, n: nat)
    ensures
        run(s, m + n) == run(run(s, m), n),
    decreases n,
{
    if n > 0 {
        lemma_run_add(s, m, (n - 1) as nat);
    }
}

proof fn lemma_run_preserves_wf(s: PuzzleV, n: nat)
    requires
        wf_state(s),
    ensures
        wf_state(run(s, n)),
    decreases n,
{
    if n > 0 {
        lemma_run_preserves_wf(s, (n - 1) as nat);
        lemma_step_preserves_sorted(run(s, (n - 1) as nat));
    }
}

/// Once solved, a run stays solved.
proof fn lemma_solved_stays(s: PuzzleV, n: nat)
    requires
        s.solved,
    ensures
        run(s, n).solved,
    decreases n,
{
    if n > 0 {
        lemma_solved_stays(s, (n - 1) as nat);
    }
}

/// If a run is unsolved after `n` steps it was unsolved all along.
proof fn lemma_not_solved_before(s: PuzzleV, n: nat)
    requires
        !run(s, n).solved,
    ensures
        forall|j: nat| j <= n ==> !(#[trigger] run(s, j)).solved,
{
    assert forall|j: nat| j <= n implies !(#[trigger] run(s, j)).solved by {
        if run(s, j).solved {
            lemma_solved_stays(run(s, j), (n - j) as nat);
            lemma_run_add(s, j, (n - j) as nat);
        }
    }
}

/// Every width on `rod` is strictly larger than every width in `disks`.
spec fn all_larger(rod: Seq<i32>, disks: Seq<i32>) -> bool {
    forall|i: int, j: int|
        0 <= i < rod.len() && 0 <= j < disks.len() ==> #[trigger] rod[i] > #[trigger] disks[j]
}

/// The top `k` disks of a rod, bottom of the tower first.
spec fn top_k(rod: Seq<i32>, k: nat) -> Seq<i32> {
    rod.skip(rod.len() - k)
}

/// The rod a tower of `k` disks travels to: one step right for an odd
/// tower, two for an even one.
spec fn tower_dest(r: int, k: nat) -> int {
    if k % 2 == 1 {
        (r + 1) % 3
    } else {
        (r + 2) % 3
    }
}

/// A tower of the `k` smallest disks in play sits on top of the tracked rod,
/// it is the smallest-move turn, and every disk elsewhere is strictly wider.
spec fn tower_ready(s: PuzzleV, k: nat) -> bool {
    &&& wf_state(s)
    &&& s.smallest_move
    &&& k <= s.rods[s.smallest_pos].len()
    &&& all_larger(s.rods[(s.smallest_pos + 1) % 3], top_k(s.rods[s.smallest_pos], k))
    &&& all_larger(s.rods[(s.smallest_pos + 2) % 3], top_k(s.rods[s.smallest_pos], k))
}

/// Rod 0 keeps a disk through the whole transport, so the solved flag cannot
/// fire during it.
spec fn rod0_guard(s: PuzzleV, k: nat) -> bool {
    if s.smallest_pos == 0 {
        s.rods[0].len() > k
    } else {
        s.rods[0].len() > 0
    }
}

/// Transporting a tower of `k` disks: from a ready state, `pow2(k) - 1`
/// steps move exactly the top `k` disks of the tracked rod onto the
/// destination rod, leave the third rod untouched, end on the destination
/// with the turn flag cleared, and never change the solved flag.
#[verifier::rlimit(100)]
proof fn lemma_tower(s: PuzzleV, k: nat)
    requires
        tower_ready(s, k),
        1 <= k,
        rod0_guard(s, k),
    ensures
        ({
            let r = s.smallest_pos;
            let d = tower_dest(r, k);
            let e = 3 - r - d;
            let len = s.rods[r].len();
            let t = run(s, (pow2(k) - 1) as nat);
            &&& t.rods.len() == 3
            &&& t.rods[r] == s.rods[r].take(len - k)
            &&& t.rods[d] == s.rods[d] + top_k(s.rods[r], k)
            &&& t.rods[e] == s.rods[e]
            &&& t.smallest_pos == d
            &&& t.smallest_move == false
            &&& t.solved == s.solved
        }),
    decreases k,
{
    lemma_pow2_pos(k);
    let r = s.smallest_pos;
    let d = tower_dest(r, k);
    let e = 3 - r - d;
    let len = s.rods[r].len();
    let rodr = s.rods[r];
    if k == 1 {
        assert(d == (r + 1) % 3);
        assert(pow2(0) == 1);
        assert(pow2(1) == 2 * pow2(0));
        assert((pow2(k) - 1) as nat == 1);
        let t = run(s, 1);
        assert(run(s, 0) == s);
        assert(t == step_spec(s));
        assert(top_k(rodr, 1).len() == 1);
        assert(top_k(rodr, 1)[0] == rodr[len - 1]);
        assert(rodr.last() == rodr[len - 1]);
        assert(can_move(s.rods, r, d)) by {
            if s.rods[d].len() > 0 {
                assert(s.rods[d].last() == s.rods[d][s.rods[d].len() - 1]);
                assert(s.rods[d][s.rods[d].len() - 1] > top_k(rodr, 1)[0]);
            }
        }
        let rods1 = apply_move(s.rods, r, d);
        assert(r != d && e != r && e != d && 0 <= e < 3) by {
            if r == 0 {
            } else if r == 1 {
            } else {
                assert(r == 2);
            }
        }
        assert(rods1[e] == s.rods[e]);
        assert(rods1[d] =~= s.rods[d] + top_k(rodr, 1));
        assert(rods1[r] =~= rodr.take(len - 1));
        assert(rods1[0].len() > 0) by {
            if r == 0 {
                assert(rods1[0].len() == len - 1);
            } else if d == 0 {
                assert(rods1[0].len() == s.rods[0].len() + 1);
            } else {
                assert(rods1[0] == s.rods[0]);
            }
        }
        assert(t.solved == s.solved);
        assert(t.rods.len() == 3);
        assert(t.rods[d] == s.rods[d] + top_k(rodr, k));
        assert(t.rods[r] == rodr.take(len - k));
        assert(t.smallest_pos == d && t.smallest_move == false);
    } else {
        let k1 = (k - 1) as nat;
        let n1 = (pow2(k1) - 1) as nat;
        lemma_pow2_pos(k1);
        // Phase 1: carry the k - 1 smallest disks off the tracked rod.
        let tower = top_k(rodr, k);
        let tower1 = top_k(rodr, k1);
        assert(tower1 =~= tower.skip(1));
        assert(tower_ready(s, k1)) by {
            assert forall|i: int, j: int|
                0 <= i < s.rods[(r + 1) % 3].len() && 0 <= j < tower1.len()
                implies #[trigger] s.rods[(r + 1) % 3][i] > #[trigger] tower1[j] by {
                assert(tower1[j] == tower[j + 1]);
            }
            assert forall|i: int, j: int|
                0 <= i < s.rods[(r + 2) % 3].len() && 0 <= j < tower1.len()
                implies #[trigger] s.rods[(r + 2) % 3][i] > #[trigger] tower1[j] by {
                assert(tower1[j] == tower[j + 1]);
            }
        }
        lemma_tower(s, k1);
        let d1 = tower_dest(r, k1);
        let e1 = 3 - r - d1;
        let s1 = run(s, n1);
        // Index bookkeeping: the six rod roles, by the parity of k.
        assert({
            &&& 0 <= r < 3 && 0 <= d1 < 3 && 0 <= e1 < 3
            &&& r != d1 && r != e1 && d1 != e1
            &&& e1 == d
            &&& tower_dest(d1, k1) == e1
            &&& ((d1 + 1) % 3 == r && (d1 + 2) % 3 == e1) || ((d1 + 1) % 3 == e1 && (d1 + 2) % 3 == r)
        }) by {
            assert(k % 2 == 1 ==> k1 % 2 == 0);
            assert(k % 2 == 0 ==> k1 % 2 == 1);
            if r == 0 {
            } else if r == 1 {
            } else {
                assert(r == 2);
            }
        }
        // The disk under the carried tower: the k-th smallest in play.
        let dd = rodr[len - k];
        assert(tower[0] == dd);
        assert(s1.rods[r] == rodr.take(len - k1));
        assert(s1.rods[d1] == s.rods[d1] + tower1);
        assert(s1.rods[e1] == s.rods[e1]);
        // The middle step moves that disk onto the free rod, whichever
        // direction the scheduler tries first.
        let s2 = step_spec(s1);
        assert(s1.rods[r].len() == len - k1);
        assert(s1.rods[r].last() == rodr[len - k]);
        assert(can_move(s1.rods, r, e1)) by {
            if s1.rods[e1].len() > 0 {
                assert(s.rods[e1].last() == s.rods[e1][s.rods[e1].len() - 1]);
                assert(s.rods[e1][s.rods[e1].len() - 1] > tower[0]);
            }
        }
        if (d1 + 1) % 3 == e1 {
            assert(!can_move(s1.rods, e1, r)) by {
                if s1.rods[e1].len() > 0 {
                    assert(s.rods[e1][s.rods[e1].len() - 1] > tower[0]);
                    assert(s1.rods[r].last() == dd);
                }
            }
            assert(s2.rods == apply_move(s1.rods, r, e1));
        } else {
            assert(s2.rods == apply_move(s1.rods, r, e1));
        }
        assert(s2.rods[r] =~= rodr.take(len - k));
        assert(s2.rods[e1] == s.rods[e1].push(dd));
        assert(s2.rods[d1] == s1.rods[d1]);
        assert(s2.smallest_pos == d1);
        assert(s2.smallest_move);
        assert(s2.rods[0].len() > 0) by {
            if r == 0 {
                assert(s2.rods[0].len() == len - k);
            } else if e1 == 0 {
                assert(s2.rods[0].len() == s.rods[0].len() + 1);
            } else if d1 == 0 {
                assert(s2.rods[0].len() == s.rods[0].len() + k1);
            }
        }
        assert(s2.solved == s.solved);
        // Phase 2: carry the k - 1 smallest disks back on top of it.
        lemma_run_preserves_wf(s, n1);
        lemma_step_preserves_sorted(s1);
        let lend1 = s.rods[d1].len();
        let tower2 = top_k(s2.rods[d1], k1);
        assert(tower2 =~= tower1);
        assert(tower_ready(s2, k1)) by {
            assert forall|i: int, j: int|
                0 <= i < s2.rods[(d1 + 1) % 3].len() && 0 <= j < tower2.len()
                implies #[trigger] s2.rods[(d1 + 1) % 3][i] > #[trigger] tower2[j] by {
                lemma_other_rods_larger(s, r, d1, e1, k, i, j, (d1 + 1) % 3);
            }
            assert forall|i: int, j: int|
                0 <= i < s2.rods[(d1 + 2) % 3].len() && 0 <= j < tower2.len()
                implies #[trigger] s2.rods[(d1 + 2) % 3][i] > #[trigger] tower2[j] by {
                lemma_other_rods_larger(s, r, d1, e1, k, i, j, (d1 + 2) % 3);
            }
        }
        assert(rod0_guard(s2, k1)) by {
            if d1 == 0 {
                assert(s2.rods[0].len() == lend1 + k1);
            }
        }
        lemma_tower(s2, k1);
        let s3 = run(s2, n1);
        assert(s3.rods[d1] =~= s.rods[d1]) by {
            assert(s2.rods[d1].take(s2.rods[d1].len() - k1) =~= s.rods[d1]);
        }
        assert(s3.rods[e1] =~= s.rods[e1] + tower) by {
            assert(s3.rods[e1] == s2.rods[e1] + tower2);
        }
        assert(s3.rods[r] == s2.rods[r]);
        assert(s3.smallest_pos == e1);
        assert(s3.smallest_move == false);
        assert(s3.solved == s.solved);
        // The three pieces chain into one run of pow2(k) - 1 steps.
        assert(pow2(k) == 2 * pow2(k1));
        lemma_run_add(s, n1, 1);
        assert(run(run(s, n1), 1) == step_spec(run(run(s, n1), 0)));
        assert(run(s, n1 + 1) == s2);
        lemma_run_add(s, n1 + 1, n1);
        assert((pow2(k) - 1) as nat == n1 + 1 + n1);
        let t = run(s, (pow2(k) - 1) as nat);
        assert(t == s3);
        assert(t.rods[r] == rodr.take(len - k));
        assert(t.rods[d] == s.rods[d] + tower);
        assert(t.rods[e] == s.rods[e]);
    }
}

/// The initial state is well formed.  The bound on `n` keeps the widths
/// inside `i32`.
pub proof fn lemma_init_wf(n: nat)
    requires
        n <= 100_000,
    ensures
        wf_state(init_state(n)),
{
    let w = init_state(n).rods[0];
    assert forall|a: int, b: int| 0 <= a < b < w.len() implies #[trigger] w[a] > #[trigger] w[b] by {
        assert(w[a] == (460 - 30 * a) as i32);
        assert(w[b] == (460 - 30 * b) as i32);
    }
}

/// Law: a puzzle of `n` disks reports itself solved after exactly
/// `pow2(n - 1)` scheduler steps and at no earlier point.  Rod 0 is then
/// empty; the `n - 1` smaller disks sit in their initial order on rod 1
/// when `n` is even and on rod 2 when it is odd, and the widest disk sits
/// alone on the remaining rod, so rods 1 and 2 partition all the disks.
pub proof fn lemma_solved_at_pow2(n: nat)
    requires
        1 <= n <= 100_000,
    ensures
        ({
            let steps = pow2((n - 1) as nat);
            let t = run(init_state(n), steps);
            let small = if n % 2 == 0 { 1int } else { 2int };
            let big = if n % 2 == 0 { 2int } else { 1int };
            &&& t.solved
            &&& t.rods.len() == 3
            &&& t.rods[0] == Seq::<i32>::empty()
            &&& t.rods[small] == init_state(n).rods[0].skip(1)
            &&& t.rods[big] == seq![460i32]
            &&& forall|j: nat| j < steps ==> !(#[trigger] run(init_state(n), j)).solved
        }),
{
    let s0 = init_state(n);
    lemma_init_wf(n);
    let w = s0.rods[0];
    assert(w.len() == n);
    assert(w[0] == 460i32);
    if n == 1 {
        assert(pow2(0) == 1);
        let t = run(s0, 1);
        assert(run(s0, 0) == s0);
        assert(t == step_spec(s0));
        assert(can_move(s0.rods, 0, 1));
        assert(t.rods[0] =~= Seq::<i32>::empty());
        assert(t.rods[1] =~= seq![460i32]);
        assert(t.rods[2] =~= w.skip(1));
        assert(t.solved);
        assert(forall|j: nat| j < 1 ==> !(#[trigger] run(s0, j)).solved);
    } else {
        let k = (n - 1) as nat;
        let n1 = (pow2(k) - 1) as nat;
        lemma_pow2_pos(k);
        assert(tower_ready(s0, k)) by {
            assert(s0.rods[(0int + 1) % 3].len() == 0);
            assert(s0.rods[(0int + 2) % 3].len() == 0);
        }
        assert(rod0_guard(s0, k));
        lemma_tower(s0, k);
        let d = tower_dest(0, k);
        let e = 3 - 0 - d;
        let t1 = run(s0, n1);
        assert(n % 2 == 0 ==> k % 2 == 1);
        assert(n % 2 == 1 ==> k % 2 == 0);
        assert(d == (if n % 2 == 0 { 1int } else { 2int }));
        assert(e == (if n % 2 == 0 { 2int } else { 1int }));
        assert(t1.rods[0] =~= seq![460i32]) by {
            assert(t1.rods[0] == w.take(w.len() - k));
            assert(w.len() - k == 1);
        }
        assert(t1.rods[d] =~= w.skip(1)) by {
            assert(t1.rods[d] == s0.rods[d] + top_k(w, k));
            assert(s0.rods[d].len() == 0);
            assert(top_k(w, k) =~= w.skip(1));
        }
        assert(t1.rods[e].len() == 0);
        assert(t1.smallest_pos == d && !t1.smallest_move && t1.solved == false);
        let s2 = step_spec(t1);
        let first = (d + 1) % 3;
        let second = (d + 2) % 3;
        assert((first == 0 && second == e) || (first == e && second == 0)) by {
            if d == 1 {
            } else {
                assert(d == 2);
            }
        }
        assert(can_move(t1.rods, 0, e)) by {
            assert(t1.rods[0].len() == 1);
        }
        if first == e {
            assert(!can_move(t1.rods, e, 0));
            assert(s2.rods == apply_move(t1.rods, 0, e));
        } else {
            assert(s2.rods == apply_move(t1.rods, 0, e));
        }
        assert(s2.rods[0] =~= Seq::<i32>::empty());
        assert(s2.rods[e] =~= seq![460i32]) by {
            assert(t1.rods[0].last() == 460i32);
            assert(s2.rods[e] == t1.rods[e].push(460i32));
        }
        assert(s2.rods[d] == t1.rods[d]);
        assert(s2.solved);
        lemma_run_add(s0, n1, 1);
        assert(run(run(s0, n1), 1) == step_spec(run(run(s0, n1), 0)));
        assert(run(s0, n1 + 1) == s2);
        assert(n1 + 1 == pow2(k));
        lemma_not_solved_before(s0, n1);
        assert forall|j: nat| j < pow2(k) implies !(#[trigger] run(s0, j)).solved by {
            assert(j <= n1);
        }
    }
}

/// In the middle state of the transport, every disk on a rod other than the
/// carrier is wider than every disk of the carried tower.
proof fn lemma_other_rods_larger(
    s: PuzzleV,
    r: int,
    d1: int,
    e1: int,
    k: nat,
    i: int,
    j: int,
    rod: int,
)
    requires
        wf_state(s),
        s.smallest_pos == r,
        2 <= k <= s.rods[r].len(),
        0 <= r < 3 && 0 <= d1 < 3 && 0 <= e1 < 3,
        r != d1 && r != e1 && d1 != e1,
        all_larger(s.rods[(r + 1) % 3], top_k(s.rods[r], k)),
        all_larger(s.rods[(r + 2) % 3], top_k(s.rods[r], k)),
        rod == r || rod == e1,
        0 <= j < k - 1,
        ({
            let widths = if rod == r {
                s.rods[r].take(s.rods[r].len() - k)
            } else {
                s.rods[e1].push(s.rods[r][s.rods[r].len() - k])
            };
            0 <= i < widths.len()
        }),
    ensures
        ({
            let widths = if rod == r {
                s.rods[r].take(s.rods[r].len() - k)
            } else {
                s.rods[e1].push(s.rods[r][s.rods[r].len() - k])
            };
            widths[i] > top_k(s.rods[r], (k - 1) as nat)[j]
        }),
{
    let rodr = s.rods[r];
    let len = rodr.len();
    let tower = top_k(rodr, k);
    let tower1 = top_k(rodr, (k - 1) as nat);
    assert(tower1[j] == rodr[len - k + 1 + j]);
    assert(tower1[j] == tower[j + 1]);
    if rod == r {
        assert(rodr.take(len - k)[i] == rodr[i]);
        assert(rodr[i] > rodr[len - k + 1 + j]);
    } else {
        let widths = s.rods[e1].push(rodr[len - k]);
        if i < s.rods[e1].len() {
            assert(widths[i] == s.rods[e1][i]);
            assert((r + 1) % 3 == e1 || (r + 2) % 3 == e1) by {
                if r == 0 {
                } else if r == 1 {
                } else {
                    assert(r == 2);
                }
            }
            assert(s.rods[e1][i] > tower[j + 1]);
        } else {
            assert(widths[i] == rodr[len - k]);
            assert(rodr[len - k] > rodr[len - k + 1 + j]);
        }
    }
}

} // verus!
