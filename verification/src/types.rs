//! The shared data types of the pipeline: editor snapshots, navigation
//! events, abstract editor actions, physical key presses and the recognized
//! configuration options.

use vstd::prelude::*;

verus! {

/// A published snapshot of the query editor: the query text, the cursor
/// offset into it (counted in characters), and whether a selection was
/// requested.
#[derive(Clone, PartialEq, Eq, Debug)]
pub struct UIStuff {
    pub input: String,
    pub cursor_position: usize,
    pub enter: bool,
}

/// A queued navigation event; every instance must be observed in order.
#[derive(Clone, Copy, PartialEq, Eq, Debug)]
pub enum Movement {
    Up,
    Down,
    Enter,
}

/// An abstract editor action, produced from a physical key press by a fixed
/// translation table.
#[derive(Clone, Copy, PartialEq, Eq, Debug)]
pub enum Action {
    MoveLeft,
    MoveRight,
    MoveUp,
    MoveDown,
    MoveEnd,
    MoveBegin,
    Exit,
    Select,
    ClearAll,
    BackSpace,
    Other,
    Key(char),
}

/// A physical key press, as the terminal reports it: the key itself plus
/// whether the control modifier was held. Any unrecognized event is `Other`.
#[derive(Clone, Copy, PartialEq, Eq, Debug)]
pub enum KeyPress {
    Char(char),
    Backspace,
    Enter,
    Esc,
    Up,
    Down,
    Left,
    Right,
    Home,
    End,
    Other,
}

/// The recognized command-line options; an absent option falls back to its
/// default.
#[derive(Clone, PartialEq, Eq, Debug)]
pub struct Args {
    pub buffsize: Option<usize>,
    pub scoreclamp: Option<usize>,
    pub batchsize: Option<usize>,
}

/// The default number of ranked results kept per redraw.
pub const DEFAULT_BUFFSIZE: usize = 100;

/// The default score ceiling, and so the highest bucket of the index.
pub const DEFAULT_SCORECLAMP: usize = 50;

/// The default number of lines per ingestion batch.
pub const DEFAULT_BATCHSIZE: usize = 50;

impl Args {
    /// The result-buffer size to use.
    pub fn buffsize_or_default(&self) -> (n: usize)
        ensures
            n == match self.buffsize {
                Some(v) => v,
                None => DEFAULT_BUFFSIZE,
            },
    {
        match self.buffsize {
            Some(v) => v,
            None => DEFAULT_BUFFSIZE,
        }
    }

    /// The score clamp to use.
    pub fn scoreclamp_or_default(&self) -> (n: usize)
        ensures
            n == match self.scoreclamp {
                Some(v) => v,
                None => DEFAULT_SCORECLAMP,
            },
    {
        match self.scoreclamp {
            Some(v) => v,
            None => DEFAULT_SCORECLAMP,
        }
    }

    /// The ingestion batch size to use.
    pub fn batchsize_or_default(&self) -> (n: usize)
        ensures
            n == match self.batchsize {
                Some(v) => v,
                None => DEFAULT_BATCHSIZE,
            },
    {
        match self.batchsize {
            Some(v) => v,
            None => DEFAULT_BATCHSIZE,
        }
    }
}

} // verus!
