//! The matrix scanner: one debounced line per intersection, sampled once per
//! tick in drive-major, sense-minor order.
use vstd::prelude::*;
use vstd::arithmetic::div_mod::lemma_fundamental_div_mod_converse;
use crate::debounce::{DebouncedPin, PinModel};
use crate::link::ButtonStatusEvent;

verus! {

/// One intersection's sample: `None` is a failed read, which changes nothing.
pub open spec fn sample_cell(p: PinModel, raw: Option<bool>) -> PinModel {
    match raw {
        Some(v) => p.step(v),
        None => p,
    }
}

/// Every intersection after one tick's samples.
pub open spec fn next_pins(pins: Seq<PinModel>, raw: Seq<Option<bool>>) -> Seq<PinModel> {
    Seq::new(pins.len(), |i: int| sample_cell(pins[i], raw[i]))
}

/// The event of intersection `i` (drive-major numbering) in state `p`.
pub open spec fn cell_event(i: int, senses: nat, p: PinModel) -> ButtonStatusEvent {
    ButtonStatusEvent { drive: (i / senses as int) as u8, sense: (i % senses as int) as u8, pressed: p.pressed() }
}

/// The events of the first `n` intersections, in scan order: one for each
/// whose accepted level changed from `before` to `after`.
pub open spec fn scan_events(before: Seq<PinModel>, after: Seq<PinModel>, senses: nat, n: int) -> Seq<
    ButtonStatusEvent,
>
    decreases n,
{
    if n <= 0 {
        Seq::empty()
    } else {
        let prev = scan_events(before, after, senses, n - 1);
        if after[n - 1].level != before[n - 1].level {
            prev.push(cell_event(n - 1, senses, after[n - 1]))
        } else {
            prev
        }
    }
}

/// A switch matrix of `drives` x `senses` intersections.
pub struct LocalGrid {
    pins: Vec<DebouncedPin>,
    drives: usize,
    senses: usize,
}

impl LocalGrid {
    pub closed spec fn pins(&self) -> Seq<PinModel> {
        Seq::new(self.pins@.len(), |i: int| self.pins@[i]@)
    }

    pub closed spec fn drives(&self) -> nat {
        self.drives as nat
    }

    pub closed spec fn senses(&self) -> nat {
        self.senses as nat
    }

    /// A well-formed matrix holds one debounced line per intersection.
    pub proof fn lemma_shape(&self)
        requires
            self.wf(),
        ensures
            self.pins().len() == self.drives() * self.senses(),
            1 <= self.drives() <= 256,
            1 <= self.senses() <= 256,
            forall|i: int| 0 <= i < self.pins().len() ==> (#[trigger] self.pins()[i]).wf(),
    {
    }

    pub closed spec fn wf(&self) -> bool {
        &&& 1 <= self.drives <= 256
        &&& 1 <= self.senses <= 256
        &&& self.pins@.len() == self.drives * self.senses
        &&& forall|i: int| 0 <= i < self.pins@.len() ==> (#[trigger] self.pins@[i])@.wf()
    }

    /// A matrix whose intersections all start released.
    pub fn new(drives: usize, senses: usize, threshold: u32, active: bool) -> (r: LocalGrid)
        requires
            1 <= drives <= 256,
            1 <= senses <= 256,
            threshold >= 1,
        ensures
            r.wf(),
            r.drives() == drives,
            r.senses() == senses,
            r.pins().len() == r.drives() * r.senses(),
            r.pins() == Seq::new(
                (drives * senses) as nat,
                |i: int| PinModel { level: !active, count: 0, threshold: threshold as nat, active },
            ),
    {
        assert(drives * senses <= 256 * 256) by (nonlinear_arith)
            requires
                drives <= 256,
                senses <= 256,
        ;
        let n = drives * senses;
        let mut pins: Vec<DebouncedPin> = Vec::new();
        while pins.len() < n
            invariant
                pins@.len() <= n,
                forall|i: int|
                    0 <= i < pins@.len() ==> (#[trigger] pins@[i])@ == (PinModel {
                        level: !active,
                        count: 0,
                        threshold: threshold as nat,
                        active,
                    }),
                threshold >= 1,
            decreases n - pins@.len(),
        {
            pins.push(DebouncedPin::new(threshold, active));
        }
        let r = LocalGrid { pins, drives, senses };
        assert(r.pins() =~= Seq::new(
            (drives * senses) as nat,
            |i: int| PinModel { level: !active, count: 0, threshold: threshold as nat, active },
        ));
        r
    }

    /// Samples every intersection once, in drive-major order (`raw` holds the
    /// level read at each, `None` for a failed read), and returns an event
    /// for each whose debounced state changed, in the same order.
    pub fn get_events(&mut self, raw: &Vec<Option<bool>>) -> (events: Vec<ButtonStatusEvent>)
        requires
            old(self).wf(),
            raw@.len() == old(self).pins().len(),
        ensures
            final(self).wf(),
            final(self).drives() == old(self).drives(),
            final(self).senses() == old(self).senses(),
            final(self).pins() == next_pins(old(self).pins(), raw@),
            final(self).pins().len() == final(self).drives() * final(self).senses(),
            1 <= final(self).drives() <= 256,
            1 <= final(self).senses() <= 256,
            forall|k: int|
                0 <= k < events@.len() ==> (#[trigger] events@[k]).drive < final(self).drives()
                    && events@[k].sense < final(self).senses(),
            events@ == scan_events(
                old(self).pins(),
                final(self).pins(),
                old(self).senses(),
                old(self).pins().len() as int,
            ),
    {
        let ghost before = self.pins();
        let ghost after = next_pins(before, raw@);
        let n = self.pins.len();
        let senses = self.senses;
        let mut events: Vec<ButtonStatusEvent> = Vec::new();
        let mut i: usize = 0;
        let mut d: usize = 0;
        let mut s: usize = 0;
        while i < n
            invariant
                self.wf(),
                self.drives == old(self).drives,
                self.senses == senses,
                n == self.pins@.len(),
                n == before.len(),
                n == self.drives * senses,
                raw@.len() == n,
                after == next_pins(before, raw@),
                0 <= i <= n,
                s < senses,
                i == d * senses + s,
                forall|j: int| 0 <= j < i ==> self.pins@[j]@ == #[trigger] after[j],
                forall|j: int| i <= j < n ==> self.pins@[j]@ == #[trigger] before[j],
                forall|j: int| 0 <= j < n ==> (#[trigger] before[j]).wf(),
                events@ == scan_events(before, after, senses as nat, i as int),
                forall|k: int|
                    0 <= k < events@.len() ==> (#[trigger] events@[k]).drive < self.drives
                        && events@[k].sense < senses,
            decreases n - i,
        {
            proof {
                assert(d < self.drives) by (nonlinear_arith)
                    requires
                        i < n,
                        n == self.drives * senses,
                        i == d * senses + s,
                        s < senses,
                ;
            }
            let mut p = self.pins[i];
            let changed = match raw[i] {
                Some(v) => p.sample(v),
                None => false,
            };
            assert(p@ == after[i as int]);
            self.pins.set(i, p);
            if changed {
                proof {
                    lemma_fundamental_div_mod_converse(i as int, senses as int, d as int, s as int);
                }
                let pressed = p.is_pressed();
                events.push(ButtonStatusEvent { drive: d as u8, sense: s as u8, pressed });
            }
            i = i + 1;
            s = s + 1;
            if s == senses {
                s = 0;
                d = d + 1;
                assert(i == d * senses + s) by (nonlinear_arith)
                    requires
                        i == (d - 1) * senses + senses,
                        s == 0,
                ;
            }
            proof {
                assert(self.pins@[i - 1]@ == after[i - 1]);
            }
        }
        assert(self.pins() =~= after);
        events
    }
}

/// When no intersection but the first changes its accepted level, a scan
/// reports one event, for (0, 0), exactly when the first one changed.
pub proof fn lemma_only_first_cell_changes(before: Seq<PinModel>, after: Seq<PinModel>, senses: nat, n: int)
    requires
        senses >= 1,
        1 <= n <= before.len(),
        after.len() == before.len(),
        forall|i: int| 1 <= i < n ==> (#[trigger] after[i]).level == before[i].level,
    ensures
        scan_events(before, after, senses, n) == if after[0].level != before[0].level {
            seq![ButtonStatusEvent { drive: 0, sense: 0, pressed: after[0].pressed() }]
        } else {
            Seq::<ButtonStatusEvent>::empty()
        },
    decreases n,
{
    if n == 1 {
        assert(0int / senses as int == 0 && 0int % senses as int == 0);
        assert(scan_events(before, after, senses, 0) == Seq::<ButtonStatusEvent>::empty());
        assert(cell_event(0, senses, after[0]) == ButtonStatusEvent {
            drive: 0,
            sense: 0,
            pressed: after[0].pressed(),
        });
        assert(Seq::<ButtonStatusEvent>::empty().push(
            ButtonStatusEvent { drive: 0, sense: 0, pressed: after[0].pressed() },
        ) =~= seq![ButtonStatusEvent { drive: 0, sense: 0, pressed: after[0].pressed() }]);
    } else {
        lemma_only_first_cell_changes(before, after, senses, n - 1);
    }
}

} // verus!
