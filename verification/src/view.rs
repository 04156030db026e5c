//! The render/selection controller: owns the selection offset, maps it onto a
//! fixed-height viewport, and decides which line a selection picks.

use vstd::prelude::*;
use vstd::math::min;
use crate::index::MatchEntry;
use crate::types::Movement;
use crate::types::UIStuff;

verus! {

/// The first result shown when only the last `height` results fit.
pub open spec fn spec_start(len: int, height: int) -> int {
    if len > height {
        len - height
    } else {
        0int
    }
}

/// The highlighted result, counted from the top of the visible slice. The
/// selection offset counts from the bottom (0 is the last, newest result) and
/// is clipped to the visible slice.
pub open spec fn spec_index_from_top(len: int, height: int, selected: int) -> int {
    let visible = min(len, height);
    if visible == 0 {
        0int
    } else {
        (visible - 1) - min(selected, visible - 1)
    }
}

/// The absolute index into the result buffer that the selection offset names
/// under the current viewport geometry.
pub open spec fn spec_enter_index(len: int, height: int, selected: int) -> int {
    spec_start(len, height) + spec_index_from_top(len, height, selected)
}

/// How the visible slice is laid out: blank padding rows on top, then the
/// results from `start_idx` on, with the highlight on `highlight_row`
/// (counted over padding and results together).
pub struct ViewGeometry {
    pub padding_rows: usize,
    pub start_idx: usize,
    pub highlight_row: usize,
}

/// The viewport geometry for a result list of length `len`, a viewport of
/// `height` rows, and the given selection offset. When fewer results than
/// rows exist the top is padded; otherwise only the last `height` results
/// show.
pub fn viewport(len: usize, height: usize, selected: usize) -> (g: ViewGeometry)
    ensures
        g.padding_rows == height - min(len as int, height as int),
        g.start_idx == spec_start(len as int, height as int),
        g.highlight_row == g.padding_rows + spec_index_from_top(
            len as int,
            height as int,
            selected as int,
        ),
{
    let visible = if len < height {
        len
    } else {
        height
    };
    let padding_rows = height - visible;
    let start_idx = if len > height {
        len - height
    } else {
        0
    };
    let from_top = if visible == 0 {
        0
    } else {
        let from_bottom = if selected < visible - 1 {
            selected
        } else {
            visible - 1
        };
        (visible - 1) - from_bottom
    };
    ViewGeometry { padding_rows, start_idx, highlight_row: padding_rows + from_top }
}

/// An event the controller reacts to: a fresh result buffer with its total
/// count, a fresh editor snapshot, or one queued navigation event.
pub enum ControllerEvent {
    Results(usize, Vec<MatchEntry>),
    Snapshot(UIStuff),
    Move(Movement),
}

/// The controller's state: the last result buffer and its total count, the
/// last editor snapshot, and the selection offset, counted from the bottom of
/// the result list so that it survives buffer replacement.
pub struct Controller {
    pub results: Vec<MatchEntry>,
    pub total: usize,
    pub snapshot: UIStuff,
    pub selected: usize,
}

impl Controller {
    /// A fresh controller: no results, an empty snapshot, selection at the
    /// bottom.
    pub fn new() -> (c: Self)
        ensures
            c.results@.len() == 0,
            c.total == 0,
            c.selected == 0,
            c.snapshot.input@ == Seq::<char>::empty(),
            c.snapshot.cursor_position == 0,
            !c.snapshot.enter,
    {
        Controller {
            results: Vec::new(),
            total: 0,
            snapshot: UIStuff { input: String::new(), cursor_position: 0, enter: false },
            selected: 0,
        }
    }

    /// Adopts a fresh result buffer. The selection offset persists, reclamped
    /// into the new buffer's range so that replacing the buffer can never
    /// leave it out of range.
    pub fn on_results(&mut self, total: usize, results: Vec<MatchEntry>)
        ensures
            final(self).results == results,
            final(self).total == total,
            final(self).snapshot == old(self).snapshot,
            final(self).selected == if old(self).selected >= results@.len() {
                if results@.len() == 0 {
                    0int
                } else {
                    results@.len() - 1
                }
            } else {
                old(self).selected as int
            },
            final(self).selected < results@.len() || final(self).selected == 0,
    {
        if self.selected >= results.len() {
            self.selected = if results.len() == 0 {
                0
            } else {
                results.len() - 1
            };
        }
        self.results = results;
        self.total = total;
    }

    /// Adopts a fresh editor snapshot.
    pub fn on_snapshot(&mut self, ui: UIStuff)
        ensures
            final(self).snapshot == ui,
            final(self).results == old(self).results,
            final(self).total == old(self).total,
            final(self).selected == old(self).selected,
    {
        self.snapshot = ui;
    }

    /// Moves the selection one step toward the top (older results). There is
    /// no upper clamp beyond what rendering clips.
    pub fn on_move_up(&mut self)
        requires
            old(self).selected < usize::MAX,
        ensures
            final(self).selected == old(self).selected + 1,
            final(self).results == old(self).results,
            final(self).total == old(self).total,
            final(self).snapshot == old(self).snapshot,
    {
        self.selected = self.selected + 1;
    }

    /// Moves the selection one step toward the bottom (newer results),
    /// floored at zero: pressing it at the bottom leaves the selection there.
    pub fn on_move_down(&mut self)
        ensures
            final(self).selected == if old(self).selected > 0 {
                old(self).selected - 1
            } else {
                0int
            },
            final(self).results == old(self).results,
            final(self).total == old(self).total,
            final(self).snapshot == old(self).snapshot,
    {
        if self.selected > 0 {
            self.selected = self.selected - 1;
        }
    }

    /// The line a selection picks under the current viewport geometry: the
    /// selection offset is mapped through padding and scroll start to an
    /// absolute index, which lands in range exactly when there is at least
    /// one result and one viewport row.
    pub fn on_enter(&self, height: usize) -> (r: Option<String>)
        ensures
            (r is Some) == (self.results@.len() > 0 && height > 0),
            r matches Some(s) ==> {
                &&& 0 <= spec_enter_index(
                    self.results@.len() as int,
                    height as int,
                    self.selected as int,
                ) < self.results@.len()
                &&& s@ == self.results@[spec_enter_index(
                    self.results@.len() as int,
                    height as int,
                    self.selected as int,
                )].0@
            },
    {
        let len = self.results.len();
        let visible = if len < height {
            len
        } else {
            height
        };
        let start = if len > height {
            len - height
        } else {
            0
        };
        let from_top = if visible == 0 {
            0
        } else {
            let from_bottom = if self.selected < visible - 1 {
                self.selected
            } else {
                visible - 1
            };
            (visible - 1) - from_bottom
        };
        let idx = start + from_top;
        if idx < len {
            Some(self.results[idx].0.clone())
        } else {
            None
        }
    }

    /// One step of the controller: adopts fresh state or performs one
    /// navigation event; a selection that lands in range returns the chosen
    /// line, on which the caller prints it and terminates.
    pub fn step(&mut self, ev: ControllerEvent, height: usize) -> (r: Option<String>)
        requires
            ev matches ControllerEvent::Move(Movement::Up) ==> old(self).selected < usize::MAX,
        ensures
            match ev {
                ControllerEvent::Results(total, results) => {
                    &&& r is None
                    &&& final(self).results == results
                    &&& final(self).total == total
                    &&& final(self).snapshot == old(self).snapshot
                    &&& final(self).selected == if old(self).selected >= results@.len() {
                        if results@.len() == 0 {
                            0int
                        } else {
                            results@.len() - 1
                        }
                    } else {
                        old(self).selected as int
                    }
                },
                ControllerEvent::Snapshot(ui) => {
                    &&& r is None
                    &&& final(self).snapshot == ui
                    &&& final(self).results == old(self).results
                    &&& final(self).total == old(self).total
                    &&& final(self).selected == old(self).selected
                },
                ControllerEvent::Move(m) => {
                    &&& final(self).results == old(self).results
                    &&& final(self).total == old(self).total
                    &&& final(self).snapshot == old(self).snapshot
                    &&& match m {
                        Movement::Up => r is None && final(self).selected == old(self).selected
                            + 1,
                        Movement::Down => r is None && final(self).selected == if old(
                            self,
                        ).selected > 0 {
                            old(self).selected - 1
                        } else {
                            0int
                        },
                        Movement::Enter => {
                            &&& final(self).selected == old(self).selected
                            &&& (r is Some) == (old(self).results@.len() > 0 && height > 0)
                            &&& r matches Some(s) ==> s@ == old(self).results@[spec_enter_index(
                                old(self).results@.len() as int,
                                height as int,
                                old(self).selected as int,
                            )].0@
                        },
                    }
                },
            },
    {
        match ev {
            ControllerEvent::Results(total, results) => {
                self.on_results(total, results);
                None
            },
            ControllerEvent::Snapshot(ui) => {
                self.on_snapshot(ui);
                None
            },
            ControllerEvent::Move(m) => {
                match m {
                    Movement::Up => {
                        self.on_move_up();
                        None
                    },
                    Movement::Down => {
                        self.on_move_down();
                        None
                    },
                    Movement::Enter => self.on_enter(height),
                }
            },
        }
    }
}

} // verus!
