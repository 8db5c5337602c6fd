//! The keyboard report: a modifier byte, a reserved byte and six key slots,
//! filled first come first served; and what to do with the sink's answer.
use vstd::prelude::*;
use crate::codes::{is_modifier_usage, representable_usage, FIRST_MODIFIER};

verus! {

/// Number of key slots in a report.
pub const REPORT_SLOTS: usize = 6;

/// The bit of the modifier byte that a modifier usage sets.
pub open spec fn modifier_bit(u: u8) -> u8 {
    (1u8 << ((u - FIRST_MODIFIER) as u8)) as u8
}

/// The keys that land in slots: each non-modifier usage in order, while a
/// slot is free; later ones are dropped.
pub open spec fn report_keys(codes: Seq<u8>) -> Seq<u8>
    decreases codes.len(),
{
    if codes.len() == 0 {
        Seq::empty()
    } else {
        let prev = report_keys(codes.drop_last());
        let c = codes.last();
        if is_modifier_usage(c) || prev.len() >= REPORT_SLOTS {
            prev
        } else {
            prev.push(c)
        }
    }
}

/// The modifier byte: the bits of all modifier usages.
pub open spec fn report_modifiers(codes: Seq<u8>) -> u8
    decreases codes.len(),
{
    if codes.len() == 0 {
        0
    } else {
        let prev = report_modifiers(codes.drop_last());
        let c = codes.last();
        if is_modifier_usage(c) {
            prev | modifier_bit(c)
        } else {
            prev
        }
    }
}

/// The usages that are not modifiers, in order.
pub open spec fn non_modifiers(codes: Seq<u8>) -> Seq<u8>
    decreases codes.len(),
{
    if codes.len() == 0 {
        Seq::empty()
    } else {
        let prev = non_modifiers(codes.drop_last());
        if is_modifier_usage(codes.last()) {
            prev
        } else {
            prev.push(codes.last())
        }
    }
}

/// The six slots: the keys, then zeros.
pub open spec fn slots_of(keys: Seq<u8>) -> Seq<u8> {
    Seq::new(REPORT_SLOTS as nat, |j: int| if j < keys.len() { keys[j] } else { 0u8 })
}

/// A report never holds more than six keys: they are the first six
/// non-modifier usages in order, and any further one is left out rather
/// than put in place of an earlier one.
pub proof fn lemma_report_keeps_first_six(codes: Seq<u8>)
    ensures
        report_keys(codes).len() <= REPORT_SLOTS,
        report_keys(codes) == non_modifiers(codes).take(
            if non_modifiers(codes).len() < REPORT_SLOTS {
                non_modifiers(codes).len() as int
            } else {
                REPORT_SLOTS as int
            },
        ),
    decreases codes.len(),
{
    if codes.len() == 0 {
        assert(non_modifiers(codes).take(0) =~= Seq::<u8>::empty());
    } else {
        let init = codes.drop_last();
        lemma_report_keeps_first_six(init);
        let nm = non_modifiers(init);
        if is_modifier_usage(codes.last()) {
        } else if nm.len() >= REPORT_SLOTS {
            assert(nm.push(codes.last()).take(REPORT_SLOTS as int) =~= nm.take(REPORT_SLOTS as int));
        } else {
            assert(nm.take(nm.len() as int) =~= nm);
            assert(nm.push(codes.last()).take((nm.len() + 1) as int) =~= nm.push(codes.last()));
        }
    }
}

/// A keyboard report as the host reads it.
#[derive(Clone, Copy, Debug)]
pub struct KeyboardReport {
    pub modifier: u8,
    pub reserved: u8,
    pub keycodes: [u8; 6],
}

impl KeyboardReport {
    /// The report with no key and no modifier.
    pub fn empty() -> (r: KeyboardReport)
        ensures
            r.modifier == 0,
            r.reserved == 0,
            r.keycodes@ == slots_of(Seq::empty()),
    {
        let r = KeyboardReport { modifier: 0, reserved: 0, keycodes: [0u8; 6] };
        assert(r.keycodes@ =~= slots_of(Seq::empty()));
        r
    }

    /// Packs usages in order: modifiers into the modifier byte, the others
    /// into the first free slot, dropped once all six are taken.
    pub fn from_usages(codes: &Vec<u8>) -> (r: KeyboardReport)
        requires
            forall|i: int| 0 <= i < codes@.len() ==> representable_usage(#[trigger] codes@[i]),
        ensures
            r.modifier == report_modifiers(codes@),
            r.reserved == 0,
            r.keycodes@ == slots_of(report_keys(codes@)),
    {
        let mut r = KeyboardReport::empty();
        let mut used: usize = 0;
        let mut i: usize = 0;
        while i < codes.len()
            invariant
                0 <= i <= codes@.len(),
                forall|j: int| 0 <= j < codes@.len() ==> representable_usage(#[trigger] codes@[j]),
                used == report_keys(codes@.take(i as int)).len(),
                r.modifier == report_modifiers(codes@.take(i as int)),
                r.reserved == 0,
                r.keycodes@ == slots_of(report_keys(codes@.take(i as int))),
            decreases codes@.len() - i,
        {
            proof {
                assert(codes@.take(i + 1) =~= codes@.take(i as int).push(codes@[i as int]));
            }
            used = r.add_usage(used, codes[i], Ghost(codes@.take(i as int)));
            i = i + 1;
        }
        assert(codes@.take(codes@.len() as int) =~= codes@);
        r
    }

    /// Adds one usage to the report of `prefix`, which has `used` keys.
    pub(crate) fn add_usage(&mut self, used: usize, c: u8, Ghost(prefix): Ghost<Seq<u8>>) -> (n: usize)
        requires
            representable_usage(c),
            used == report_keys(prefix).len(),
            old(self).modifier == report_modifiers(prefix),
            old(self).reserved == 0,
            old(self).keycodes@ == slots_of(report_keys(prefix)),
        ensures
            n == report_keys(prefix.push(c)).len(),
            final(self).modifier == report_modifiers(prefix.push(c)),
            final(self).reserved == 0,
            final(self).keycodes@ == slots_of(report_keys(prefix.push(c))),
    {
        proof {
            assert(prefix.push(c).drop_last() =~= prefix);
            lemma_report_keeps_first_six(prefix);
        }
        if FIRST_MODIFIER <= c {
            let bit: u8 = 1u8 << (c - FIRST_MODIFIER);
            self.modifier = self.modifier | bit;
            used
        } else if used < REPORT_SLOTS {
            self.keycodes[used] = c;
            proof {
                assert(self.keycodes@ =~= slots_of(report_keys(prefix).push(c)));
            }
            used + 1
        } else {
            used
        }
    }

    /// The eight bytes sent to the host.
    pub fn to_bytes(&self) -> (r: [u8; 8])
        ensures
            r@ == seq![self.modifier, self.reserved].add(self.keycodes@),
    {
        let k = self.keycodes;
        let r = [self.modifier, self.reserved, k[0], k[1], k[2], k[3], k[4], k[5]];
        assert(r@ =~= seq![self.modifier, self.reserved].add(self.keycodes@));
        r
    }
}

/// What the sink said to one submission.
#[derive(Clone, Copy, Debug, PartialEq, Eq, Structural)]
pub enum SubmitOutcome {
    Accepted,
    /// The sink's queue is full for now.
    Full,
    /// An error that trying again will not mend.
    Fault,
}

/// What the assembler does next.
#[derive(Clone, Copy, Debug, PartialEq, Eq, Structural)]
pub enum SubmitStep {
    Done,
    Retry,
    Halt,
}

/// A full queue is retried at once; acceptance ends the submission; a fault
/// halts the device.
pub fn next_submit_step(outcome: SubmitOutcome) -> (r: SubmitStep)
    ensures
        outcome == SubmitOutcome::Accepted ==> r == SubmitStep::Done,
        outcome == SubmitOutcome::Full ==> r == SubmitStep::Retry,
        outcome == SubmitOutcome::Fault ==> r == SubmitStep::Halt,
{
    match outcome {
        SubmitOutcome::Accepted => SubmitStep::Done,
        SubmitOutcome::Full => SubmitStep::Retry,
        SubmitOutcome::Fault => SubmitStep::Halt,
    }
}

} // verus!
