//! A neuron's firing history: whether it fired on each recent tick, newest
//! first.

use std::collections::VecDeque;
use vstd::prelude::*;

verus! {

/// The number of ticks a neuron remembers.
pub const HIST_LEN: usize = 50;

/// A history of `HIST_LEN` ticks without firing.
pub fn fresh_history() -> (h: VecDeque<bool>)
    ensures
        h@ == Seq::new(HIST_LEN as nat, |i: int| false),
{
    let mut h: VecDeque<bool> = VecDeque::new();
    let mut i: usize = 0;
    while i < HIST_LEN
        invariant
            i <= HIST_LEN,
            h@ == Seq::new(i as nat, |k: int| false),
        decreases HIST_LEN - i,
    {
        h.push_back(false);
        proof {
            assert(h@ =~= Seq::new((i + 1) as nat, |k: int| false));
        }
        i = i + 1;
    }
    h
}

/// The history after one more tick: the oldest entry drops out and whether the
/// neuron fired goes in front.
pub open spec fn after_tick(h: Seq<bool>, fired: bool) -> Seq<bool> {
    seq![fired] + if h.len() > 0 {
        h.drop_last()
    } else {
        h
    }
}

/// Records one tick.
pub fn record_firing(hist: &mut VecDeque<bool>, fired: bool)
    ensures
        final(hist)@ == after_tick(old(hist)@, fired),
{
    hist.pop_back();
    hist.push_front(fired);
    proof {
        if old(hist)@.len() > 0 {
            assert(old(hist)@.subrange(0, old(hist)@.len() as int - 1) =~= old(hist)@.drop_last());
        }
    }
}

/// Whether the neuron fired within its last `w` ticks.
pub open spec fn fired_within_spec(h: Seq<bool>, w: int) -> bool {
    exists|i: int| 0 <= i < w && i < h.len() && #[trigger] h[i]
}

/// Whether the neuron fired within its last `w` ticks.
pub fn fired_within(hist: &VecDeque<bool>, w: usize) -> (b: bool)
    ensures
        b == fired_within_spec(hist@, w as int),
{
    let n = hist.len();
    let mut i: usize = 0;
    while i < w && i < n
        invariant
            n == hist@.len(),
            forall|k: int| 0 <= k < i ==> !#[trigger] hist@[k],
        decreases n - i,
    {
        if hist[i] {
            return true;
        }
        i = i + 1;
    }
    false
}

/// A tick keeps the length of a non-empty history, and the newest entry is
/// whether the neuron fired: a neuron that just fired has fired within every
/// window of at least one tick, and one that did not has fired within `w + 1`
/// ticks exactly when it had fired within `w` before.
pub proof fn lemma_tick_window(h: Seq<bool>, fired: bool, w: int)
    requires
        h.len() > 0,
        w >= 0,
    ensures
        after_tick(h, fired).len() == h.len(),
        fired ==> fired_within_spec(after_tick(h, fired), w + 1),
        !fired && w + 1 <= h.len() ==> (fired_within_spec(after_tick(h, fired), w + 1)
            <==> fired_within_spec(h, w)),
{
    let a = after_tick(h, fired);
    if fired {
        assert(a[0]);
    } else if w + 1 <= h.len() {
        if fired_within_spec(a, w + 1) {
            let i = choose|i: int| 0 <= i < w + 1 && i < a.len() && #[trigger] a[i];
            assert(h[i - 1]);
        }
        if fired_within_spec(h, w) {
            let i = choose|i: int| 0 <= i < w && i < h.len() && #[trigger] h[i];
            assert(a[i + 1]);
        }
    }
}

} // verus!
