//! The status grid: the keymap table, which switches are pressed, layer
//! resolution, and the report built from them.
use vstd::prelude::*;
use crate::codes::{fits_keyboard_report, is_modifier_usage, KbEvent, KeyboardCode};
use crate::link::ButtonStatusEvent;
use crate::report::{report_keys, report_modifiers, slots_of, KeyboardReport};

verus! {

/// What the keymap defines for one intersection.
#[derive(Debug)]
pub enum ButtonAction {
    /// Always the same code.
    Simple(KbEvent),
    /// Entry 0 is the base code, entry `l` the override for layer `l`;
    /// `None` leaves that layer to fall through to the ones below.
    Layered(Vec<Option<KbEvent>>),
    /// Holding this button enables a layer; it emits no code itself.
    EnableLayer(usize),
}

/// Why a keymap table was refused.
#[derive(Clone, Copy, Debug, PartialEq, Eq, Structural)]
pub enum GridError {
    /// No columns, or a table that does not fill whole rows.
    Shape,
    /// The first button (in table order) with a code that a keyboard report
    /// cannot carry.
    Unrepresentable { index: usize },
}

/// Every code the button can emit fits a keyboard report.
pub open spec fn button_fits(b: ButtonAction) -> bool {
    match b {
        ButtonAction::Simple(e) => fits_keyboard_report(e),
        ButtonAction::Layered(v) => forall|l: int|
            0 <= l < v@.len() && (#[trigger] v@[l]) is Some ==> fits_keyboard_report(v@[l].unwrap()),
        ButtonAction::EnableLayer(_) => true,
    }
}

/// The button enables layer `l`.
pub open spec fn enables(b: ButtonAction, l: int) -> bool {
    match b {
        ButtonAction::EnableLayer(m) => m as int == l,
        _ => false,
    }
}

/// Layer `l` is active: some pressed button enables it.
pub open spec fn layer_active(buttons: Seq<ButtonAction>, cells: Seq<bool>, l: int) -> bool {
    exists|j: int| 0 <= j < buttons.len() && j < cells.len() && cells[j] && #[trigger] enables(buttons[j], l)
}

/// Among entries `0..n` of `v`, the one of the highest layer that is active
/// (the base always is) and defines a code.
pub open spec fn pick(v: Seq<Option<KbEvent>>, buttons: Seq<ButtonAction>, cells: Seq<bool>, n: int) -> Option<KbEvent>
    decreases n,
{
    if n <= 0 {
        None
    } else if v[n - 1] is Some && (n - 1 == 0 || layer_active(buttons, cells, n - 1)) {
        v[n - 1]
    } else {
        pick(v, buttons, cells, n - 1)
    }
}

/// The code that intersection `i` emits in the current state.
pub open spec fn resolve_spec(buttons: Seq<ButtonAction>, cells: Seq<bool>, i: int) -> Option<KbEvent> {
    match buttons[i] {
        ButtonAction::Simple(e) => Some(e),
        ButtonAction::Layered(v) => pick(v@, buttons, cells, v@.len() as int),
        ButtonAction::EnableLayer(_) => None,
    }
}

/// The keyboard usages of the pressed intersections among the first `n`, in
/// table order.
pub open spec fn pressed_usages(buttons: Seq<ButtonAction>, cells: Seq<bool>, n: int) -> Seq<u8>
    decreases n,
{
    if n <= 0 {
        Seq::empty()
    } else {
        let prev = pressed_usages(buttons, cells, n - 1);
        if cells[n - 1] {
            match resolve_spec(buttons, cells, n - 1) {
                Some(KbEvent::K(k)) => prev.push(k.0),
                _ => prev,
            }
        } else {
            prev
        }
    }
}

/// The cells after one event; an event outside the grid changes nothing.
pub open spec fn apply_event(cells: Seq<bool>, rows: nat, cols: nat, e: ButtonStatusEvent) -> Seq<bool> {
    if e.drive < rows && e.sense < cols {
        cells.update(e.drive * cols + e.sense, e.pressed)
    } else {
        cells
    }
}

/// The cells after a sequence of events, applied in order.
pub open spec fn apply_events(cells: Seq<bool>, rows: nat, cols: nat, es: Seq<ButtonStatusEvent>) -> Seq<bool>
    decreases es.len(),
{
    if es.len() == 0 {
        cells
    } else {
        apply_event(apply_events(cells, rows, cols, es.drop_last()), rows, cols, es.last())
    }
}

/// The pressed state of a keyboard: its keymap and one flag per
/// intersection, both in row-major order.
pub struct GridState {
    buttons: Vec<ButtonAction>,
    pressed: Vec<bool>,
    rows: usize,
    cols: usize,
}

impl GridState {
    pub closed spec fn buttons(&self) -> Seq<ButtonAction> {
        self.buttons@
    }

    pub closed spec fn cells(&self) -> Seq<bool> {
        self.pressed@
    }

    pub closed spec fn rows(&self) -> nat {
        self.rows as nat
    }

    pub closed spec fn cols(&self) -> nat {
        self.cols as nat
    }

    /// A well-formed grid holds one cell and one button per intersection.
    pub proof fn lemma_shape(&self)
        requires
            self.wf(),
        ensures
            self.cells().len() == self.rows() * self.cols(),
            self.buttons().len() == self.cells().len(),
            self.cols() >= 1,
    {
    }

    pub closed spec fn wf(&self) -> bool {
        &&& self.buttons@.len() == self.rows * self.cols
        &&& self.pressed@.len() == self.buttons@.len()
        &&& self.cols >= 1
        &&& forall|i: int| 0 <= i < self.buttons@.len() ==> button_fits(#[trigger] self.buttons@[i])
    }

    /// Builds the grid from a row-major keymap of `cols` columns, nothing
    /// pressed. A table that does not fill whole rows, or holds a code that a
    /// keyboard report cannot carry, is refused.
    pub fn new(buttons: Vec<ButtonAction>, cols: usize) -> (r: Result<GridState, GridError>)
        ensures
            (cols == 0 || buttons@.len() % (cols as nat) != 0) <==> r == Err::<GridState, GridError>(GridError::Shape),
            r is Ok <==> (cols > 0 && buttons@.len() % (cols as nat) == 0 && forall|i: int|
                0 <= i < buttons@.len() ==> button_fits(#[trigger] buttons@[i])),
            r matches Err(GridError::Unrepresentable { index }) ==> {
                &&& cols > 0 && buttons@.len() % (cols as nat) == 0
                &&& index < buttons@.len()
                &&& !button_fits(buttons@[index as int])
                &&& forall|j: int| 0 <= j < index ==> button_fits(#[trigger] buttons@[j])
            },
            r matches Ok(g) ==> {
                &&& g.wf()
                &&& g.buttons() == buttons@
                &&& g.cols() == cols
                &&& g.cells().len() == g.rows() * g.cols()
                &&& g.rows() == buttons@.len() / (cols as nat)
                &&& g.cells() == Seq::new(buttons@.len(), |i: int| false)
            },
    {
        if cols == 0 || buttons.len() % cols != 0 {
            return Err(GridError::Shape);
        }
        let n = buttons.len();
        let mut i: usize = 0;
        while i < n
            invariant
                n == buttons@.len(),
                cols > 0,
                n % cols == 0,
                i <= n,
                forall|j: int| 0 <= j < i ==> button_fits(#[trigger] buttons@[j]),
            decreases n - i,
        {
            if !Self::fits(&buttons[i]) {
                return Err(GridError::Unrepresentable { index: i });
            }
            i = i + 1;
        }
        let rows = n / cols;
        proof {
            vstd::arithmetic::div_mod::lemma_fundamental_div_mod(n as int, cols as int);
            assert(n == rows * cols) by (nonlinear_arith)
                requires
                    n as int == cols as int * (n as int / cols as int) + n as int % cols as int,
                    n as int % cols as int == 0,
                    rows as int == n as int / cols as int,
            ;
        }
        let mut pressed: Vec<bool> = Vec::new();
        while pressed.len() < n
            invariant
                n == buttons@.len(),
                forall|j: int| 0 <= j < n ==> button_fits(#[trigger] buttons@[j]),
                pressed@.len() <= n,
                forall|j: int| 0 <= j < pressed@.len() ==> !(#[trigger] pressed@[j]),
            decreases n - pressed@.len(),
        {
            pressed.push(false);
        }
        let g = GridState { buttons, pressed, rows, cols };
        assert(g.pressed@ =~= Seq::new(n as nat, |i: int| false));
        Ok(g)
    }

    fn fits(b: &ButtonAction) -> (r: bool)
        ensures
            r == button_fits(*b),
    {
        match b {
            ButtonAction::Simple(e) => e.fits_keyboard_report(),
            ButtonAction::Layered(v) => {
                let mut l: usize = 0;
                while l < v.len()
                    invariant
                        *b == ButtonAction::Layered(*v),
                        l <= v@.len(),
                        forall|m: int| 0 <= m < l && (#[trigger] v@[m]) is Some ==> fits_keyboard_report(v@[m].unwrap()),
                    decreases v@.len() - l,
                {
                    match v[l] {
                        Some(e) => {
                            if !e.fits_keyboard_report() {
                                assert(v@[l as int] == Some(e));
                                return false;
                            }
                        },
                        None => {},
                    }
                    l = l + 1;
                }
                true
            },
            ButtonAction::EnableLayer(_) => true,
        }
    }

    pub fn num_rows(&self) -> (r: usize)
        ensures
            r == self.rows(),
    {
        self.rows
    }

    pub fn num_cols(&self) -> (r: usize)
        ensures
            r == self.cols(),
    {
        self.cols
    }

    /// Whether the switch at (`row`, `col`) is held.
    pub fn is_pressed(&self, row: usize, col: usize) -> (r: bool)
        requires
            self.wf(),
            row < self.rows(),
            col < self.cols(),
        ensures
            r == self.cells()[row * self.cols() + col],
    {
        let i = self.index(row, col);
        self.pressed[i]
    }

    fn index(&self, row: usize, col: usize) -> (i: usize)
        requires
            self.wf(),
            row < self.rows(),
            col < self.cols(),
        ensures
            i == row * self.cols() + col,
            i < self.cells().len(),
    {
        proof {
            assert(row * self.cols + col < self.rows * self.cols) by (nonlinear_arith)
                requires
                    row < self.rows,
                    col < self.cols,
            ;
        }
        // The flags fill a `Vec`, so the index fits in `usize`.
        let len = self.pressed.len();
        let i = row * self.cols + col;
        assert(i < len);
        i
    }

    /// Records that the switch at (`row`, `col`) is held or released; a
    /// coordinate outside the grid is ignored. Setting a cell to the value it
    /// has changes nothing.
    pub fn set_pressed(&mut self, row: usize, col: usize, pressed: bool)
        requires
            old(self).wf(),
        ensures
            final(self).wf(),
            final(self).buttons() == old(self).buttons(),
            final(self).rows() == old(self).rows(),
            final(self).cols() == old(self).cols(),
            old(self).cells().len() == old(self).rows() * old(self).cols(),
            row < old(self).rows() && col < old(self).cols() ==> row * old(self).cols() + col < old(
                self,
            ).cells().len(),
            final(self).cells().len() == final(self).rows() * final(self).cols(),
            final(self).buttons().len() == final(self).cells().len(),
            final(self).cells() == if row < old(self).rows() && col < old(self).cols() {
                old(self).cells().update(row * old(self).cols() + col, pressed)
            } else {
                old(self).cells()
            },
    {
        if row < self.rows && col < self.cols {
            let i = self.index(row, col);
            self.pressed.set(i, pressed);
        }
    }

    /// Applies one transition event.
    pub fn apply(&mut self, e: ButtonStatusEvent)
        requires
            old(self).wf(),
        ensures
            final(self).wf(),
            final(self).buttons() == old(self).buttons(),
            final(self).rows() == old(self).rows(),
            final(self).cols() == old(self).cols(),
            old(self).cells().len() == old(self).rows() * old(self).cols(),
            e.drive < old(self).rows() && e.sense < old(self).cols() ==> e.drive * old(self).cols() + e.sense
                < old(self).cells().len(),
            final(self).cells().len() == final(self).rows() * final(self).cols(),
            final(self).buttons().len() == final(self).cells().len(),
            final(self).cells() == apply_event(old(self).cells(), old(self).rows(), old(self).cols(), e),
    {
        self.set_pressed(e.drive as usize, e.sense as usize, e.pressed);
    }

    /// Applies events in order.
    pub fn apply_all(&mut self, events: &Vec<ButtonStatusEvent>)
        requires
            old(self).wf(),
        ensures
            final(self).wf(),
            final(self).buttons() == old(self).buttons(),
            final(self).rows() == old(self).rows(),
            final(self).cols() == old(self).cols(),
            old(self).cells().len() == old(self).rows() * old(self).cols(),
            final(self).cells().len() == final(self).rows() * final(self).cols(),
            final(self).buttons().len() == final(self).cells().len(),
            final(self).cells() == apply_events(old(self).cells(), old(self).rows(), old(self).cols(), events@),
    {
        let ghost start = self.cells();
        let mut i: usize = 0;
        while i < events.len()
            invariant
                self.wf(),
                self.buttons() == old(self).buttons(),
                self.rows() == old(self).rows(),
                self.cols() == old(self).cols(),
                start == old(self).cells(),
                i <= events@.len(),
                self.cells() == apply_events(start, self.rows(), self.cols(), events@.take(i as int)),
            decreases events@.len() - i,
        {
            self.apply(events[i]);
            proof {
                assert(events@.take(i + 1).drop_last() =~= events@.take(i as int));
            }
            i = i + 1;
        }
        assert(events@.take(events@.len() as int) =~= events@);
    }

    fn layer_active(&self, l: usize) -> (r: bool)
        requires
            self.wf(),
        ensures
            r == layer_active(self.buttons(), self.cells(), l as int),
    {
        let mut j: usize = 0;
        while j < self.buttons.len()
            invariant
                self.wf(),
                j <= self.buttons@.len(),
                forall|m: int| 0 <= m < j ==> !(self.pressed@[m] && #[trigger] enables(self.buttons@[m], l as int)),
            decreases self.buttons@.len() - j,
        {
            if self.pressed[j] {
                match &self.buttons[j] {
                    ButtonAction::EnableLayer(m) => {
                        if *m == l {
                            assert(enables(self.buttons@[j as int], l as int));
                            return true;
                        }
                    },
                    _ => {},
                }
            }
            j = j + 1;
        }
        false
    }

    fn resolve_index(&self, i: usize) -> (r: Option<KbEvent>)
        requires
            self.wf(),
            i < self.buttons().len(),
        ensures
            r == resolve_spec(self.buttons(), self.cells(), i as int),
    {
        match &self.buttons[i] {
            ButtonAction::Simple(e) => Some(*e),
            ButtonAction::Layered(v) => {
                let mut n = v.len();
                while n > 0
                    invariant
                        self.wf(),
                        i < self.buttons@.len(),
                        self.buttons@[i as int] == ButtonAction::Layered(*v),
                        n <= v@.len(),
                        pick(v@, self.buttons(), self.cells(), v@.len() as int) == pick(
                            v@,
                            self.buttons(),
                            self.cells(),
                            n as int,
                        ),
                    decreases n,
                {
                    let l = n - 1;
                    if v[l].is_some() && (l == 0 || self.layer_active(l)) {
                        assert(pick(v@, self.buttons(), self.cells(), n as int) == v@[l as int]);
                        return v[l];
                    }
                    n = l;
                }
                None
            },
            ButtonAction::EnableLayer(_) => None,
        }
    }

    /// The code that the switch at (`row`, `col`) emits now: the override of
    /// the highest active layer that defines one, else the base code; none
    /// for a layer button.
    pub fn resolve(&self, row: usize, col: usize) -> (r: Option<KbEvent>)
        requires
            self.wf(),
            row < self.rows(),
            col < self.cols(),
        ensures
            r == resolve_spec(self.buttons(), self.cells(), row * self.cols() + col),
    {
        let i = self.index(row, col);
        self.resolve_index(i)
    }

    /// The report of the current state: the pressed switches in row-major
    /// order, each resolved, packed first come first served.
    pub fn to_report(&self) -> (r: KeyboardReport)
        requires
            self.wf(),
        ensures
            r.modifier == report_modifiers(pressed_usages(self.buttons(), self.cells(), self.cells().len() as int)),
            r.reserved == 0,
            r.keycodes@ == slots_of(report_keys(pressed_usages(self.buttons(), self.cells(), self.cells().len() as int))),
    {
        let mut r = KeyboardReport::empty();
        let mut used: usize = 0;
        let mut i: usize = 0;
        while i < self.pressed.len()
            invariant
                self.wf(),
                i <= self.cells().len(),
                used == report_keys(pressed_usages(self.buttons(), self.cells(), i as int)).len(),
                r.modifier == report_modifiers(pressed_usages(self.buttons(), self.cells(), i as int)),
                r.reserved == 0,
                r.keycodes@ == slots_of(report_keys(pressed_usages(self.buttons(), self.cells(), i as int))),
            decreases self.cells().len() - i,
        {
            if self.pressed[i] {
                let code = self.resolve_index(i);
                proof {
                    lemma_resolve_fits(self.buttons(), self.cells(), i as int);
                }
                match code {
                    Some(KbEvent::K(k)) => {
                        used = r.add_usage(used, k.0, Ghost(pressed_usages(self.buttons(), self.cells(), i as int)));
                    },
                    _ => {},
                }
            }
            i = i + 1;
        }
        r
    }
}

proof fn lemma_pick_fits(v: Seq<Option<KbEvent>>, buttons: Seq<ButtonAction>, cells: Seq<bool>, n: int)
    requires
        n <= v.len(),
        forall|l: int| 0 <= l < v.len() && (#[trigger] v[l]) is Some ==> fits_keyboard_report(v[l].unwrap()),
    ensures
        pick(v, buttons, cells, n) matches Some(e) ==> fits_keyboard_report(e),
    decreases n,
{
    if n > 0 {
        lemma_pick_fits(v, buttons, cells, n - 1);
    }
}

/// In a well-formed table every resolved code fits a keyboard report.
proof fn lemma_resolve_fits(buttons: Seq<ButtonAction>, cells: Seq<bool>, i: int)
    requires
        0 <= i < buttons.len(),
        button_fits(buttons[i]),
    ensures
        resolve_spec(buttons, cells, i) matches Some(e) ==> fits_keyboard_report(e),
{
    match buttons[i] {
        ButtonAction::Layered(v) => lemma_pick_fits(v@, buttons, cells, v@.len() as int),
        _ => {},
    }
}

/// The event sets cell `i`.
pub open spec fn writes(e: ButtonStatusEvent, rows: nat, cols: nat, i: int) -> bool {
    e.drive < rows && e.sense < cols && e.drive * cols + e.sense == i
}

/// Cell `i`, starting at `v`, after the events: the last event that writes
/// it decides.
pub open spec fn cell_after(v: bool, rows: nat, cols: nat, es: Seq<ButtonStatusEvent>, i: int) -> bool
    decreases es.len(),
{
    if es.len() == 0 {
        v
    } else if writes(es.last(), rows, cols, i) {
        es.last().pressed
    } else {
        cell_after(v, rows, cols, es.drop_last(), i)
    }
}

/// An event inside the grid names a cell of it.
pub proof fn lemma_event_in_grid(e: ButtonStatusEvent, rows: nat, cols: nat)
    requires
        e.drive < rows,
        e.sense < cols,
    ensures
        0 <= e.drive * cols + e.sense < rows * cols,
{
    assert(e.drive * cols + e.sense < rows * cols) by (nonlinear_arith)
        requires
            e.drive < rows,
            e.sense < cols,
    ;
}

/// After a sequence of events each cell holds the flag of the last event
/// that wrote it, or its old value when none did.
pub proof fn lemma_apply_pointwise(cells: Seq<bool>, rows: nat, cols: nat, es: Seq<ButtonStatusEvent>)
    requires
        cells.len() == rows * cols,
    ensures
        apply_events(cells, rows, cols, es).len() == cells.len(),
        forall|i: int|
            0 <= i < cells.len() ==> #[trigger] apply_events(cells, rows, cols, es)[i] == cell_after(
                cells[i],
                rows,
                cols,
                es,
                i,
            ),
    decreases es.len(),
{
    if es.len() > 0 {
        lemma_apply_pointwise(cells, rows, cols, es.drop_last());
        let e = es.last();
        if e.drive < rows && e.sense < cols {
            lemma_event_in_grid(e, rows, cols);
        }
    }
}

/// Running a cell through the same events twice gives what running it once
/// gave: the last write decides, and without one the value is kept.
proof fn lemma_cell_after_last_wins(v: bool, rows: nat, cols: nat, es: Seq<ButtonStatusEvent>, i: int)
    ensures
        cell_after(cell_after(v, rows, cols, es, i), rows, cols, es, i) == cell_after(v, rows, cols, es, i),
    decreases es.len(),
{
    if es.len() > 0 && !writes(es.last(), rows, cols, i) {
        lemma_cell_after_last_wins(v, rows, cols, es.drop_last(), i);
    }
}

/// Applying the same sequence of events a second time leaves the cells as
/// the first application left them.
pub proof fn lemma_apply_events_idempotent(cells: Seq<bool>, rows: nat, cols: nat, es: Seq<ButtonStatusEvent>)
    requires
        cells.len() == rows * cols,
    ensures
        apply_events(apply_events(cells, rows, cols, es), rows, cols, es) == apply_events(cells, rows, cols, es),
{
    let once = apply_events(cells, rows, cols, es);
    lemma_apply_pointwise(cells, rows, cols, es);
    lemma_apply_pointwise(once, rows, cols, es);
    assert forall|i: int| 0 <= i < once.len() implies apply_events(once, rows, cols, es)[i] == once[i] by {
        lemma_cell_after_last_wins(cells[i], rows, cols, es, i);
    }
    assert(apply_events(once, rows, cols, es) =~= once);
}

/// Events for two different intersections can be merged in either order.
pub proof fn lemma_events_commute(cells: Seq<bool>, rows: nat, cols: nat, e1: ButtonStatusEvent, e2: ButtonStatusEvent)
    requires
        cells.len() == rows * cols,
        e1.drive != e2.drive || e1.sense != e2.sense,
    ensures
        apply_event(apply_event(cells, rows, cols, e1), rows, cols, e2) == apply_event(
            apply_event(cells, rows, cols, e2),
            rows,
            cols,
            e1,
        ),
{
    if e1.drive < rows && e1.sense < cols && e2.drive < rows && e2.sense < cols {
        lemma_event_in_grid(e1, rows, cols);
        lemma_event_in_grid(e2, rows, cols);
        assert(e1.drive * cols + e1.sense != e2.drive * cols + e2.sense) by (nonlinear_arith)
            requires
                e1.drive != e2.drive || e1.sense != e2.sense,
                e1.sense < cols,
                e2.sense < cols,
        ;
        assert(apply_event(apply_event(cells, rows, cols, e1), rows, cols, e2) =~= apply_event(
            apply_event(cells, rows, cols, e2),
            rows,
            cols,
            e1,
        ));
    }
}

proof fn lemma_pick_skips(v: Seq<Option<KbEvent>>, buttons: Seq<ButtonAction>, cells: Seq<bool>, hi: int, n: int)
    requires
        0 <= hi < n <= v.len(),
        forall|l: int| hi < l < v.len() ==> #[trigger] v[l] is None || !layer_active(buttons, cells, l),
    ensures
        pick(v, buttons, cells, n) == pick(v, buttons, cells, hi + 1),
    decreases n,
{
    if n > hi + 1 {
        lemma_pick_skips(v, buttons, cells, hi, n - 1);
    }
}

/// A layered button resolves to the override of the highest active layer
/// that defines one: lower layers and the base are passed over.
pub proof fn lemma_highest_active_layer_wins(buttons: Seq<ButtonAction>, cells: Seq<bool>, i: int, hi: int)
    requires
        0 <= i < buttons.len(),
        buttons[i] is Layered,
        0 <= hi < buttons[i]->Layered_0@.len(),
        buttons[i]->Layered_0@[hi] is Some,
        hi == 0 || layer_active(buttons, cells, hi),
        forall|l: int|
            hi < l < buttons[i]->Layered_0@.len() ==> #[trigger] buttons[i]->Layered_0@[l] is None
                || !layer_active(buttons, cells, l),
    ensures
        resolve_spec(buttons, cells, i) == buttons[i]->Layered_0@[hi],
{
    let v = buttons[i]->Layered_0@;
    lemma_pick_skips(v, buttons, cells, hi, v.len() as int);
}

/// A button with overrides at layers 1 and 2 (and none above), while both
/// layers are held, resolves to its layer-2 override.
pub proof fn lemma_layer_two_beats_layer_one(buttons: Seq<ButtonAction>, cells: Seq<bool>, i: int)
    requires
        0 <= i < buttons.len(),
        buttons[i] is Layered,
        buttons[i]->Layered_0@.len() > 2,
        buttons[i]->Layered_0@[1] is Some,
        buttons[i]->Layered_0@[2] is Some,
        forall|l: int| 2 < l < buttons[i]->Layered_0@.len() ==> #[trigger] buttons[i]->Layered_0@[l] is None,
        layer_active(buttons, cells, 1),
        layer_active(buttons, cells, 2),
    ensures
        resolve_spec(buttons, cells, i) == buttons[i]->Layered_0@[2],
{
    lemma_highest_active_layer_wins(buttons, cells, i, 2);
}

/// `w` is an interleaving of `a` and `b`: both in full, each in its own
/// order.
pub open spec fn interleaves(w: Seq<ButtonStatusEvent>, a: Seq<ButtonStatusEvent>, b: Seq<ButtonStatusEvent>) -> bool
    decreases w.len(),
{
    if w.len() == 0 {
        a.len() == 0 && b.len() == 0
    } else {
        (a.len() > 0 && a.last() == w.last() && interleaves(w.drop_last(), a.drop_last(), b)) || (b.len() > 0
            && b.last() == w.last() && interleaves(w.drop_last(), a, b.drop_last()))
    }
}

/// No event of `a` is for the same intersection as an event of `b`.
pub open spec fn disjoint_coordinates(a: Seq<ButtonStatusEvent>, b: Seq<ButtonStatusEvent>) -> bool {
    forall|j: int, k: int|
        0 <= j < a.len() && 0 <= k < b.len() ==> (#[trigger] a[j]).drive != (#[trigger] b[k]).drive || a[j].sense
            != b[k].sense
}

/// A cell that no event writes keeps its value.
proof fn lemma_cell_after_unwritten(v: bool, rows: nat, cols: nat, es: Seq<ButtonStatusEvent>, i: int)
    requires
        forall|k: int| 0 <= k < es.len() ==> !writes(#[trigger] es[k], rows, cols, i),
    ensures
        cell_after(v, rows, cols, es, i) == v,
    decreases es.len(),
{
    if es.len() > 0 {
        assert(!writes(es[es.len() - 1], rows, cols, i));
        lemma_cell_after_unwritten(v, rows, cols, es.drop_last(), i);
    }
}

/// In an interleaving, a cell that `b` never writes follows `a` alone.
proof fn lemma_interleave_follows_a(
    v: bool,
    rows: nat,
    cols: nat,
    w: Seq<ButtonStatusEvent>,
    a: Seq<ButtonStatusEvent>,
    b: Seq<ButtonStatusEvent>,
    i: int,
)
    requires
        interleaves(w, a, b),
        forall|k: int| 0 <= k < b.len() ==> !writes(#[trigger] b[k], rows, cols, i),
    ensures
        cell_after(v, rows, cols, w, i) == cell_after(v, rows, cols, a, i),
    decreases w.len(),
{
    if w.len() > 0 {
        if a.len() > 0 && a.last() == w.last() && interleaves(w.drop_last(), a.drop_last(), b) {
            lemma_interleave_follows_a(v, rows, cols, w.drop_last(), a.drop_last(), b, i);
        } else {
            assert(!writes(b[b.len() - 1], rows, cols, i));
            assert forall|k: int| 0 <= k < b.drop_last().len() implies !writes(
                #[trigger] b.drop_last()[k],
                rows,
                cols,
                i,
            ) by {
                assert(b.drop_last()[k] == b[k]);
            }
            lemma_interleave_follows_a(v, rows, cols, w.drop_last(), a, b.drop_last(), i);
        }
    }
}

/// In an interleaving, a cell that `a` never writes follows `b` alone.
proof fn lemma_interleave_follows_b(
    v: bool,
    rows: nat,
    cols: nat,
    w: Seq<ButtonStatusEvent>,
    a: Seq<ButtonStatusEvent>,
    b: Seq<ButtonStatusEvent>,
    i: int,
)
    requires
        interleaves(w, a, b),
        forall|k: int| 0 <= k < a.len() ==> !writes(#[trigger] a[k], rows, cols, i),
    ensures
        cell_after(v, rows, cols, w, i) == cell_after(v, rows, cols, b, i),
    decreases w.len(),
{
    if w.len() > 0 {
        if a.len() > 0 && a.last() == w.last() && interleaves(w.drop_last(), a.drop_last(), b) {
            assert(!writes(a[a.len() - 1], rows, cols, i));
            assert forall|k: int| 0 <= k < a.drop_last().len() implies !writes(
                #[trigger] a.drop_last()[k],
                rows,
                cols,
                i,
            ) by {
                assert(a.drop_last()[k] == a[k]);
            }
            lemma_interleave_follows_b(v, rows, cols, w.drop_last(), a.drop_last(), b, i);
        } else {
            lemma_interleave_follows_b(v, rows, cols, w.drop_last(), a, b.drop_last(), i);
        }
    }
}

/// Merging the events of two halves whose intersections differ gives the
/// same cells whichever way their events interleave: the result is that of
/// the first half's events followed by the second's.
pub proof fn lemma_merge_ignores_interleaving(
    cells: Seq<bool>,
    rows: nat,
    cols: nat,
    a: Seq<ButtonStatusEvent>,
    b: Seq<ButtonStatusEvent>,
    w: Seq<ButtonStatusEvent>,
)
    requires
        cells.len() == rows * cols,
        disjoint_coordinates(a, b),
        interleaves(w, a, b),
    ensures
        apply_events(cells, rows, cols, w) == apply_events(apply_events(cells, rows, cols, a), rows, cols, b),
{
    let left = apply_events(cells, rows, cols, w);
    let mid = apply_events(cells, rows, cols, a);
    lemma_apply_pointwise(cells, rows, cols, w);
    lemma_apply_pointwise(cells, rows, cols, a);
    lemma_apply_pointwise(mid, rows, cols, b);
    assert forall|i: int| 0 <= i < cells.len() implies left[i] == apply_events(mid, rows, cols, b)[i] by {
        if forall|k: int| 0 <= k < b.len() ==> !writes(#[trigger] b[k], rows, cols, i) {
            lemma_interleave_follows_a(cells[i], rows, cols, w, a, b, i);
            lemma_cell_after_unwritten(mid[i], rows, cols, b, i);
        } else {
            let k = choose|k: int| 0 <= k < b.len() && writes(#[trigger] b[k], rows, cols, i);
            assert forall|j: int| 0 <= j < a.len() implies !writes(#[trigger] a[j], rows, cols, i) by {
                if writes(a[j], rows, cols, i) {
                    let (ea, eb) = (a[j], b[k]);
                    assert(ea.drive == eb.drive && ea.sense == eb.sense) by (nonlinear_arith)
                        requires
                            ea.drive * cols + ea.sense == eb.drive * cols + eb.sense,
                            ea.sense < cols,
                            eb.sense < cols,
                    ;
                }
            }
            lemma_interleave_follows_b(cells[i], rows, cols, w, a, b, i);
            lemma_cell_after_unwritten(cells[i], rows, cols, a, i);
        }
    }
    assert(left =~= apply_events(mid, rows, cols, b));
}

/// Two interleavings of the same two halves' events merge to the same cells.
pub proof fn lemma_interleavings_agree(
    cells: Seq<bool>,
    rows: nat,
    cols: nat,
    a: Seq<ButtonStatusEvent>,
    b: Seq<ButtonStatusEvent>,
    w1: Seq<ButtonStatusEvent>,
    w2: Seq<ButtonStatusEvent>,
)
    requires
        cells.len() == rows * cols,
        disjoint_coordinates(a, b),
        interleaves(w1, a, b),
        interleaves(w2, a, b),
    ensures
        apply_events(cells, rows, cols, w1) == apply_events(cells, rows, cols, w2),
{
    lemma_merge_ignores_interleaving(cells, rows, cols, a, b, w1);
    lemma_merge_ignores_interleaving(cells, rows, cols, a, b, w2);
}

/// The usages of the pressed cells among the first `n`, when only `y` of
/// them resolves to a keyboard code `c`.
proof fn lemma_only_one_usage(buttons: Seq<ButtonAction>, cells: Seq<bool>, y: int, c: u8, n: int)
    requires
        0 <= y < buttons.len(),
        0 <= n <= buttons.len(),
        buttons.len() == cells.len(),
        cells[y],
        resolve_spec(buttons, cells, y) == Some(KbEvent::K(KeyboardCode(c))),
        forall|j: int| 0 <= j < cells.len() && j != y && #[trigger] cells[j] ==> buttons[j] is EnableLayer,
    ensures
        pressed_usages(buttons, cells, n) == if y < n { seq![c] } else { Seq::<u8>::empty() },
    decreases n,
{
    if n > 0 {
        lemma_only_one_usage(buttons, cells, y, c, n - 1);
        if y < n - 1 {
        } else if y == n - 1 {
            assert(Seq::<u8>::empty().push(c) =~= seq![c]);
        }
    }
}

/// With one layered key, its overrides at layers 1 and 2 (none above), and
/// the buttons of both layers held and nothing else, the report carries the
/// layer-2 code alone.
pub proof fn lemma_layer_two_in_report(buttons: Seq<ButtonAction>, cells: Seq<bool>, p: int, q: int, y: int, c2: u8)
    requires
        buttons.len() == cells.len(),
        0 <= p < buttons.len(),
        0 <= q < buttons.len(),
        0 <= y < buttons.len(),
        buttons[p] == ButtonAction::EnableLayer(1),
        buttons[q] == ButtonAction::EnableLayer(2),
        buttons[y] is Layered,
        buttons[y]->Layered_0@.len() > 2,
        buttons[y]->Layered_0@[1] is Some,
        buttons[y]->Layered_0@[2] == Some(KbEvent::K(KeyboardCode(c2))),
        forall|l: int| 2 < l < buttons[y]->Layered_0@.len() ==> #[trigger] buttons[y]->Layered_0@[l] is None,
        1 <= c2 < 0xE0,
        forall|j: int| 0 <= j < cells.len() ==> (#[trigger] cells[j] <==> (j == p || j == q || j == y)),
    ensures
        report_keys(pressed_usages(buttons, cells, cells.len() as int)) == seq![c2],
        slots_of(report_keys(pressed_usages(buttons, cells, cells.len() as int))) == seq![c2, 0u8, 0u8, 0u8, 0u8, 0u8],
        report_modifiers(pressed_usages(buttons, cells, cells.len() as int)) == 0,
{
    assert(enables(buttons[p], 1));
    assert(enables(buttons[q], 2));
    assert(cells[p] && cells[q] && cells[y]);
    lemma_layer_two_beats_layer_one(buttons, cells, y);
    lemma_only_one_usage(buttons, cells, y, c2, cells.len() as int);
    let u = seq![c2];
    assert(u.drop_last() =~= Seq::<u8>::empty());
    assert(report_keys(u.drop_last()) =~= Seq::<u8>::empty());
    assert(report_modifiers(u.drop_last()) == 0);
    assert(u.last() == c2);
    assert(!is_modifier_usage(c2));
    assert(report_keys(u) =~= Seq::<u8>::empty().push(c2));
    assert(report_keys(u) =~= seq![c2]);
    assert(slots_of(seq![c2]) =~= seq![c2, 0u8, 0u8, 0u8, 0u8, 0u8]);
}

} // verus!
