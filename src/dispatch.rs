//! One tick of a half: scan, place the events in the shared coordinate
//! space, queue them for the local merge and for the link, merge, and send.
use vstd::prelude::*;
use crate::grid::{apply_events, GridState};
use crate::link::{decode_spec, encode_spec, ButtonStatusEvent, LinkReceiver};
use crate::matrix::{next_pins, scan_events, LocalGrid};

verus! {

/// Pending events a queue holds at most; more are dropped.
pub const QUEUE_CAPACITY: usize = 8;

/// The queue after offering one event: kept if there is room.
pub open spec fn enqueue(q: Seq<ButtonStatusEvent>, e: ButtonStatusEvent) -> Seq<ButtonStatusEvent> {
    if q.len() < QUEUE_CAPACITY {
        q.push(e)
    } else {
        q
    }
}

/// The queue after offering events in order.
pub open spec fn enqueue_all(q: Seq<ButtonStatusEvent>, es: Seq<ButtonStatusEvent>) -> Seq<ButtonStatusEvent>
    decreases es.len(),
{
    if es.len() == 0 {
        q
    } else {
        enqueue(enqueue_all(q, es.drop_last()), es.last())
    }
}

/// A bounded first-in first-out queue of events.
pub struct EventQueue {
    items: Vec<ButtonStatusEvent>,
}

impl EventQueue {
    /// Oldest first.
    pub closed spec fn items(&self) -> Seq<ButtonStatusEvent> {
        self.items@
    }

    pub closed spec fn wf(&self) -> bool {
        self.items@.len() <= QUEUE_CAPACITY
    }

    pub fn new() -> (r: EventQueue)
        ensures
            r.wf(),
            r.items() == Seq::<ButtonStatusEvent>::empty(),
    {
        EventQueue { items: Vec::new() }
    }

    pub fn len(&self) -> (r: usize)
        ensures
            r == self.items().len(),
    {
        self.items.len()
    }

    /// Offers an event; returns false, and drops it, when the queue is full.
    pub fn push(&mut self, e: ButtonStatusEvent) -> (accepted: bool)
        requires
            old(self).wf(),
        ensures
            final(self).wf(),
            accepted == (old(self).items().len() < QUEUE_CAPACITY),
            final(self).items() == enqueue(old(self).items(), e),
    {
        if self.items.len() < QUEUE_CAPACITY {
            self.items.push(e);
            true
        } else {
            false
        }
    }

    /// Takes the oldest event.
    pub fn pop(&mut self) -> (r: Option<ButtonStatusEvent>)
        requires
            old(self).wf(),
        ensures
            final(self).wf(),
            old(self).items().len() == 0 ==> r is None && final(self).items() == old(self).items(),
            old(self).items().len() > 0 ==> r == Some(old(self).items()[0]) && final(self).items()
                == old(self).items().subrange(1, old(self).items().len() as int),
    {
        if self.items.len() == 0 {
            None
        } else {
            let e = self.items.remove(0);
            assert(self.items@ =~= old(self).items@.subrange(1, old(self).items@.len() as int));
            Some(e)
        }
    }
}

/// Where a half's events go in the coordinate space both halves share.
#[derive(Clone, Copy, Debug, PartialEq, Eq, Structural)]
pub struct HalfConfig {
    /// The left half shifts its events; the right half does not.
    pub is_left: bool,
    pub drive_offset: u8,
    pub sense_offset: u8,
}

/// An event in shared coordinates; `None` when the shift leaves the range of
/// a frame index.
pub open spec fn place_spec(h: HalfConfig, e: ButtonStatusEvent) -> Option<ButtonStatusEvent> {
    if !h.is_left {
        Some(e)
    } else if e.drive + h.drive_offset <= u8::MAX && e.sense + h.sense_offset <= u8::MAX {
        Some(
            ButtonStatusEvent {
                drive: (e.drive + h.drive_offset) as u8,
                sense: (e.sense + h.sense_offset) as u8,
                pressed: e.pressed,
            },
        )
    } else {
        None
    }
}

/// The placed events, in order, leaving out those that cannot be placed.
pub open spec fn place_all(h: HalfConfig, es: Seq<ButtonStatusEvent>) -> Seq<ButtonStatusEvent>
    decreases es.len(),
{
    if es.len() == 0 {
        Seq::empty()
    } else {
        let prev = place_all(h, es.drop_last());
        match place_spec(h, es.last()) {
            Some(p) => prev.push(p),
            None => prev,
        }
    }
}

impl HalfConfig {
    /// The side is read once at start-up from a jumper: high on the left half.
    pub fn from_jumper(jumper_high: bool, drive_offset: u8, sense_offset: u8) -> (r: HalfConfig)
        ensures
            r == (HalfConfig { is_left: jumper_high, drive_offset, sense_offset }),
    {
        HalfConfig { is_left: jumper_high, drive_offset, sense_offset }
    }

    pub fn place(&self, e: ButtonStatusEvent) -> (r: Option<ButtonStatusEvent>)
        ensures
            r == place_spec(*self, e),
    {
        if !self.is_left {
            Some(e)
        } else {
            match (e.drive.checked_add(self.drive_offset), e.sense.checked_add(self.sense_offset)) {
                (Some(drive), Some(sense)) => Some(ButtonStatusEvent { drive, sense, pressed: e.pressed }),
                _ => None,
            }
        }
    }
}

/// Places each event and offers it to both the merge queue and the link
/// queue, in order; an event finds each queue full or not on its own.
pub fn dispatch_events(
    events: &Vec<ButtonStatusEvent>,
    half: HalfConfig,
    merge: &mut EventQueue,
    send: &mut EventQueue,
)
    requires
        old(merge).wf(),
        old(send).wf(),
    ensures
        final(merge).wf(),
        final(send).wf(),
        final(merge).items() == enqueue_all(old(merge).items(), place_all(half, events@)),
        final(send).items() == enqueue_all(old(send).items(), place_all(half, events@)),
{
    let ghost merge0 = merge.items();
    let ghost send0 = send.items();
    let mut i: usize = 0;
    while i < events.len()
        invariant
            i <= events@.len(),
            merge.wf(),
            send.wf(),
            merge.items() == enqueue_all(merge0, place_all(half, events@.take(i as int))),
            send.items() == enqueue_all(send0, place_all(half, events@.take(i as int))),
        decreases events@.len() - i,
    {
        proof {
            assert(events@.take(i + 1).drop_last() =~= events@.take(i as int));
        }
        match half.place(events[i]) {
            Some(p) => {
                proof {
                    let ps = place_all(half, events@.take(i as int));
                    assert(ps.push(p).drop_last() =~= ps);
                }
                merge.push(p);
                send.push(p);
            },
            None => {},
        }
        i = i + 1;
    }
    assert(events@.take(events@.len() as int) =~= events@);
}

/// The periodic tick of a half: samples the matrix (`raw` in drive-major
/// order, `None` for a failed read) and hands every change, placed, to both
/// queues in scan order.
pub fn local_tick(
    matrix: &mut LocalGrid,
    raw: &Vec<Option<bool>>,
    half: HalfConfig,
    merge: &mut EventQueue,
    send: &mut EventQueue,
)
    requires
        old(matrix).wf(),
        raw@.len() == old(matrix).pins().len(),
        old(merge).wf(),
        old(send).wf(),
    ensures
        final(matrix).wf(),
        final(matrix).drives() == old(matrix).drives(),
        final(matrix).senses() == old(matrix).senses(),
        final(matrix).pins() == next_pins(old(matrix).pins(), raw@),
        final(matrix).pins().len() == final(matrix).drives() * final(matrix).senses(),
        final(merge).wf(),
        final(send).wf(),
        ({
            let es = scan_events(
                old(matrix).pins(),
                final(matrix).pins(),
                old(matrix).senses(),
                old(matrix).pins().len() as int,
            );
            &&& final(merge).items() == enqueue_all(old(merge).items(), place_all(half, es))
            &&& final(send).items() == enqueue_all(old(send).items(), place_all(half, es))
        }),
{
    let events = matrix.get_events(raw);
    dispatch_events(&events, half, merge, send);
}

/// Merges every queued event into the status grid, oldest first, and leaves
/// the queue empty.
pub fn handle_events(status: &mut GridState, merge: &mut EventQueue)
    requires
        old(status).wf(),
        old(merge).wf(),
    ensures
        final(status).wf(),
        final(status).buttons() == old(status).buttons(),
        final(status).rows() == old(status).rows(),
        final(status).cols() == old(status).cols(),
        old(status).cells().len() == old(status).rows() * old(status).cols(),
        final(status).cells().len() == final(status).rows() * final(status).cols(),
        final(status).buttons().len() == final(status).cells().len(),
        final(status).cells() == apply_events(
            old(status).cells(),
            old(status).rows(),
            old(status).cols(),
            old(merge).items(),
        ),
        final(merge).wf(),
        final(merge).items().len() == 0,
{
    proof {
        status.lemma_shape();
    }
    let ghost start = status.cells();
    let ghost queued = merge.items();
    let ghost mut done: Seq<ButtonStatusEvent> = Seq::empty();
    while merge.len() > 0
        invariant
            status.wf(),
            status.buttons() == old(status).buttons(),
            status.rows() == old(status).rows(),
            status.cols() == old(status).cols(),
            merge.wf(),
            queued == done + merge.items(),
            status.cells() == apply_events(start, status.rows(), status.cols(), done),
        decreases merge.items().len(),
    {
        let ghost before = merge.items();
        match merge.pop() {
            Some(e) => {
                let ghost done0 = done;
                status.apply(e);
                proof {
                    done = done.push(e);
                    assert(done.drop_last() =~= done0);
                    assert(queued =~= done + merge.items()) by {
                        assert(before =~= seq![e] + merge.items());
                    }
                }
            },
            None => {},
        }
    }
    assert(queued =~= done);
    proof {
        status.lemma_shape();
    }
}

/// A byte from the peer half: an event that the window now holds goes to
/// the merge queue.
pub fn receive_byte(rx: &mut LinkReceiver, b: u8, merge: &mut EventQueue) -> (r: Option<ButtonStatusEvent>)
    requires
        old(merge).wf(),
    ensures
        old(rx).window().len() == 4,
        final(rx).window().len() == 4,
        final(rx).window() == old(rx).window().subrange(1, 4).push(b),
        final(rx).drives() == old(rx).drives(),
        final(rx).senses() == old(rx).senses(),
        r == decode_spec(final(rx).window(), old(rx).drives(), old(rx).senses()),
        final(merge).wf(),
        final(merge).items() == match r {
            Some(e) => enqueue(old(merge).items(), e),
            None => old(merge).items(),
        },
{
    let r = rx.push_byte(b);
    match r {
        Some(e) => {
            merge.push(e);
        },
        None => {},
    }
    r
}

/// The frame of the oldest event waiting for the link, if any.
pub fn next_frame(send: &mut EventQueue) -> (r: Option<[u8; 4]>)
    requires
        old(send).wf(),
    ensures
        final(send).wf(),
        old(send).items().len() == 0 ==> r is None && final(send).items() == old(send).items(),
        old(send).items().len() > 0 ==> r is Some && r.unwrap()@ == encode_spec(old(send).items()[0])
            && final(send).items() == old(send).items().subrange(1, old(send).items().len() as int),
{
    match send.pop() {
        Some(e) => Some(e.encode()),
        None => None,
    }
}

} // verus!
