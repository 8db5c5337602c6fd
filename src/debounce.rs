//! A debounced input line: the accepted level follows the raw level only
//! after a run of identical samples that differ from it.
use vstd::prelude::*;

verus! {

/// The state of a debounced line.
pub ghost struct PinModel {
    /// The accepted (debounced) level.
    pub level: bool,
    /// Consecutive samples, up to now, that differ from `level`.
    pub count: nat,
    /// Length of the run that flips `level`.
    pub threshold: nat,
    /// The level that means "pressed".
    pub active: bool,
}

impl PinModel {
    pub open spec fn wf(self) -> bool {
        self.threshold >= 1 && self.count < self.threshold
    }

    pub open spec fn pressed(self) -> bool {
        self.level == self.active
    }

    /// One sample of the raw level.
    pub open spec fn step(self, raw: bool) -> PinModel {
        if raw == self.level {
            PinModel { count: 0, ..self }
        } else if self.count + 1 >= self.threshold {
            PinModel { level: raw, count: 0, ..self }
        } else {
            PinModel { count: self.count + 1, ..self }
        }
    }
}

/// The state after feeding `samples` in order.
pub open spec fn run(p: PinModel, samples: Seq<bool>) -> PinModel
    decreases samples.len(),
{
    if samples.len() == 0 {
        p
    } else {
        run(p, samples.drop_last()).step(samples.last())
    }
}

/// The state after the first `k` of `samples`.
pub open spec fn state_after(p: PinModel, samples: Seq<bool>, k: int) -> PinModel {
    run(p, samples.take(k))
}

/// The accepted level changes with sample number `k` (counted from 1).
pub open spec fn changes_at(p: PinModel, samples: Seq<bool>, k: int) -> bool {
    state_after(p, samples, k).level != state_after(p, samples, k - 1).level
}

/// A debounced input line.
#[derive(Clone, Copy, Debug)]
pub struct DebouncedPin {
    level: bool,
    count: u32,
    threshold: u32,
    active: bool,
}

impl View for DebouncedPin {
    type V = PinModel;

    closed spec fn view(&self) -> PinModel {
        PinModel {
            level: self.level,
            count: self.count as nat,
            threshold: self.threshold as nat,
            active: self.active,
        }
    }
}

impl DebouncedPin {
    /// A line that starts released; `active` is the level that means pressed.
    pub fn new(threshold: u32, active: bool) -> (r: DebouncedPin)
        requires
            threshold >= 1,
        ensures
            r@ == (PinModel { level: !active, count: 0, threshold: threshold as nat, active }),
    {
        DebouncedPin { level: !active, count: 0, threshold, active }
    }

    /// Feeds one raw sample; returns whether the accepted level changed.
    pub fn sample(&mut self, raw: bool) -> (changed: bool)
        requires
            old(self)@.wf(),
        ensures
            final(self)@ == old(self)@.step(raw),
            final(self)@.wf(),
            changed == (final(self)@.level != old(self)@.level),
    {
        if raw == self.level {
            self.count = 0;
            false
        } else if self.count + 1 >= self.threshold {
            self.level = raw;
            self.count = 0;
            true
        } else {
            self.count = self.count + 1;
            false
        }
    }

    pub fn is_pressed(&self) -> (r: bool)
        ensures
            r == self@.pressed(),
    {
        self.level == self.active
    }
}

proof fn lemma_run_step(p: PinModel, samples: Seq<bool>, k: int)
    requires
        1 <= k <= samples.len(),
    ensures
        state_after(p, samples, k) == state_after(p, samples, k - 1).step(samples[k - 1]),
{
    assert(samples.take(k).drop_last() =~= samples.take(k - 1));
}

/// Along any run: the state stays well formed, its count never exceeds the
/// samples seen, and the last `count` samples all differ from the level.
proof fn lemma_run_invariant(p: PinModel, samples: Seq<bool>, k: int)
    requires
        p.wf(),
        p.count == 0,
        0 <= k <= samples.len(),
    ensures
        state_after(p, samples, k).wf(),
        state_after(p, samples, k).count <= k,
        forall|j: int|
            k - state_after(p, samples, k).count <= j < k ==> samples[j] != state_after(
                p,
                samples,
                k,
            ).level,
    decreases k,
{
    if k == 0 {
        assert(samples.take(0) =~= Seq::<bool>::empty());
    } else {
        lemma_run_invariant(p, samples, k - 1);
        lemma_run_step(p, samples, k);
    }
}

/// The count grows by at most one per sample.
proof fn lemma_count_growth(p: PinModel, samples: Seq<bool>, i: int, k: int)
    requires
        0 <= i <= k <= samples.len(),
    ensures
        state_after(p, samples, k).count <= state_after(p, samples, i).count + (k - i),
    decreases k - i,
{
    if k > i {
        lemma_count_growth(p, samples, i, k - 1);
        lemma_run_step(p, samples, k);
    }
}

/// A debounced line, started fresh, changes its accepted level only after
/// `threshold` identical samples of the new level: never on fewer.
pub proof fn lemma_change_needs_full_run(p: PinModel, samples: Seq<bool>, k: int)
    requires
        p.wf(),
        p.count == 0,
        1 <= k <= samples.len(),
        changes_at(p, samples, k),
    ensures
        k >= p.threshold,
        forall|j: int|
            k - p.threshold <= j < k ==> samples[j] == state_after(p, samples, k).level,
{
    lemma_run_invariant(p, samples, k - 1);
    lemma_wf_along(p, samples, k - 1);
    lemma_run_step(p, samples, k);
}

/// Two changes of the accepted level lie at least `threshold` samples
/// apart: the level changes at most once per run of `threshold` samples.
pub proof fn lemma_changes_are_spaced(p: PinModel, samples: Seq<bool>, i: int, k: int)
    requires
        p.wf(),
        1 <= i < k <= samples.len(),
        changes_at(p, samples, i),
        changes_at(p, samples, k),
    ensures
        k - i >= p.threshold,
{
    lemma_run_step(p, samples, i);
    lemma_run_step(p, samples, k);
    lemma_count_growth(p, samples, i, k - 1);
    lemma_wf_along(p, samples, k - 1);
}

proof fn lemma_wf_along(p: PinModel, samples: Seq<bool>, k: int)
    requires
        p.wf(),
        0 <= k <= samples.len(),
    ensures
        state_after(p, samples, k).wf(),
        state_after(p, samples, k).threshold == p.threshold,
        state_after(p, samples, k).active == p.active,
    decreases k,
{
    if k == 0 {
        assert(samples.take(0) =~= Seq::<bool>::empty());
    } else {
        lemma_wf_along(p, samples, k - 1);
        lemma_run_step(p, samples, k);
    }
}

/// `m1` samples of the pressed level, then `m2` of the released one.
pub open spec fn press_release(active: bool, m1: nat, m2: nat) -> Seq<bool> {
    Seq::new(m1 + m2, |i: int| if i < m1 { active } else { !active })
}

/// The state after `k` samples of `press_release`, for runs of at least
/// `threshold` samples each.
spec fn press_release_state(p: PinModel, m1: nat, k: int) -> PinModel {
    if k < p.threshold {
        PinModel { level: !p.active, count: k as nat, ..p }
    } else if k <= m1 {
        PinModel { level: p.active, count: 0, ..p }
    } else if k - m1 < p.threshold {
        PinModel { level: p.active, count: (k - m1) as nat, ..p }
    } else {
        PinModel { level: !p.active, count: 0, ..p }
    }
}

proof fn lemma_press_release_states(p: PinModel, m1: nat, m2: nat, k: int)
    requires
        p.wf(),
        p.count == 0,
        p.level == !p.active,
        m1 >= p.threshold,
        m2 >= p.threshold,
        0 <= k <= m1 + m2,
    ensures
        state_after(p, press_release(p.active, m1, m2), k) == press_release_state(p, m1, k),
    decreases k,
{
    let s = press_release(p.active, m1, m2);
    if k == 0 {
        assert(s.take(0) =~= Seq::<bool>::empty());
    } else {
        lemma_press_release_states(p, m1, m2, k - 1);
        lemma_run_step(p, s, k);
    }
}

/// A line that starts released, reads the pressed level for `m1` samples
/// and then the released level for `m2`, each run at least `threshold`
/// long, changes exactly twice: to pressed after `threshold` samples, and
/// back to released `threshold` samples into the second run.
pub proof fn lemma_press_then_release(p: PinModel, m1: nat, m2: nat)
    requires
        p.wf(),
        p.count == 0,
        p.level == !p.active,
        m1 >= p.threshold,
        m2 >= p.threshold,
    ensures
        forall|k: int|
            1 <= k <= m1 + m2 ==> (changes_at(p, press_release(p.active, m1, m2), k) <==> (k == p.threshold
                || k == m1 + p.threshold)),
        state_after(p, press_release(p.active, m1, m2), p.threshold as int).pressed(),
        !state_after(p, press_release(p.active, m1, m2), (m1 + p.threshold) as int).pressed(),
{
    let s = press_release(p.active, m1, m2);
    assert forall|k: int| 1 <= k <= m1 + m2 implies (changes_at(p, s, k) <==> (k == p.threshold || k == m1
        + p.threshold)) by {
        lemma_press_release_states(p, m1, m2, k);
        lemma_press_release_states(p, m1, m2, k - 1);
    }
    lemma_press_release_states(p, m1, m2, p.threshold as int);
    lemma_press_release_states(p, m1, m2, (m1 + p.threshold) as int);
}

} // verus!
