//! The selection state machine of a switcher session: which window is
//! highlighted, and what each key or exposure does to it.

use vstd::prelude::*;

verus! {

/// Key code of Tab, which moves the selection.
pub const TAB_KEYCODE: u8 = 23;

/// Key code of the left Alt key, the trigger modifier.
pub const ALT_L_KEYCODE: u8 = 64;

/// Key code of the right Alt key, the trigger modifier.
pub const ALT_R_KEYCODE: u8 = 108;

/// Key code of Escape, which cancels.
pub const ESCAPE_KEYCODE: u8 = 9;

/// Key code of Return, which confirms in keyboard mode.
pub const RETURN_KEYCODE: u8 = 36;

/// How a session commits.
#[derive(Clone, Copy, Debug, PartialEq, Eq, Structural)]
pub enum Mode {
    /// Driven by the keyboard alone: Return confirms.
    Keyboard,
    /// Opened by holding Alt: releasing Alt confirms.
    Daemon,
}

/// An input that reaches an open session.
#[derive(Clone, Copy, Debug, PartialEq, Eq, Structural)]
pub enum Input {
    /// The surface needs repainting.
    Expose,
    /// A key went down; `shift` tells whether the reverse modifier was held.
    KeyPress { keycode: u8, shift: bool },
    /// A key came up.
    KeyRelease { keycode: u8 },
    /// Anything else.
    Other,
}

/// What the session does after an input.
#[derive(Clone, Copy, Debug, PartialEq, Eq, Structural)]
pub enum Step {
    /// Nothing to do; wait for the next input.
    Wait,
    /// Draw the current state again.
    Redraw,
    /// Close and activate the window at this index.
    Activate(usize),
    /// Close without activating anything.
    Cancel,
}

/// The index selected when a session with `count` windows opens.
pub open spec fn initial_index(count: int, shift_held: bool) -> int {
    if count > 1 {
        if shift_held {
            count - 1
        } else {
            1
        }
    } else {
        0
    }
}

/// The index after one move from `current` among `count` windows: forward
/// with wrap-around, or backward with wrap-around when `shift_held`.
pub open spec fn next_index(current: int, count: int, shift_held: bool) -> int {
    if shift_held {
        if current == 0 {
            count - 1
        } else {
            current - 1
        }
    } else {
        (current + 1) % count
    }
}

/// What an input does to a session in `mode` whose selection is `index`:
/// the new index and the step to take.
pub open spec fn transition(mode: Mode, input: Input, index: int, count: int) -> (int, Step) {
    match input {
        Input::Expose => (index, Step::Redraw),
        Input::KeyPress { keycode, shift } => {
            if keycode == TAB_KEYCODE {
                (next_index(index, count, shift), Step::Redraw)
            } else if keycode == ESCAPE_KEYCODE {
                (index, Step::Cancel)
            } else if keycode == RETURN_KEYCODE && mode == Mode::Keyboard {
                (index, Step::Activate(index as usize))
            } else {
                (index, Step::Wait)
            }
        },
        Input::KeyRelease { keycode } => {
            if mode == Mode::Daemon && (keycode == ALT_L_KEYCODE || keycode == ALT_R_KEYCODE) {
                (index, Step::Activate(index as usize))
            } else {
                (index, Step::Wait)
            }
        },
        Input::Other => (index, Step::Wait),
    }
}

/// The index selected when a session with `window_count` windows opens: the
/// second window, or the last with the reverse modifier held; the only one if
/// there is one.
pub fn initial_selection(window_count: usize, shift_held: bool) -> (r: usize)
    ensures
        r == initial_index(window_count as int, shift_held),
        window_count > 0 ==> r < window_count,
{
    if window_count > 1 {
        if shift_held {
            window_count - 1
        } else {
            1
        }
    } else {
        0
    }
}

/// The index after one move from `current` among `count` windows.
pub fn navigate_selection(current: usize, count: usize, shift_held: bool) -> (r: usize)
    requires
        current < count,
    ensures
        r == next_index(current as int, count as int, shift_held),
        r < count,
{
    if shift_held {
        if current == 0 {
            count - 1
        } else {
            current - 1
        }
    } else {
        (current + 1) % count
    }
}

/// The selection of an open session.
pub struct Selection {
    pub index: usize,
    pub count: usize,
}

impl Selection {
    /// There is a window, and the index names one.
    pub open spec fn wf(&self) -> bool {
        self.count > 0 && self.index < self.count
    }

    /// Opens a session over `count` windows, or `None` when there are none:
    /// then nothing is shown and nothing is activated.
    pub fn open(count: usize, shift_held: bool) -> (r: Option<Selection>)
        ensures
            count == 0 <==> r is None,
            r matches Some(s) ==> s.wf() && s.count == count && s.index == initial_index(
                count as int,
                shift_held,
            ),
    {
        if count == 0 {
            None
        } else {
            Some(Selection { index: initial_selection(count, shift_held), count })
        }
    }

    /// Applies one input in `mode` and says what to do next.
    pub fn handle(&mut self, mode: Mode, input: Input) -> (r: Step)
        requires
            old(self).wf(),
        ensures
            final(self).wf(),
            final(self).count == old(self).count,
            (final(self).index as int, r) == transition(
                mode,
                input,
                old(self).index as int,
                old(self).count as int,
            ),
    {
        match input {
            Input::Expose => Step::Redraw,
            Input::KeyPress { keycode, shift } => {
                if keycode == TAB_KEYCODE {
                    self.index = navigate_selection(self.index, self.count, shift);
                    Step::Redraw
                } else if keycode == ESCAPE_KEYCODE {
                    Step::Cancel
                } else if keycode == RETURN_KEYCODE && mode == Mode::Keyboard {
                    Step::Activate(self.index)
                } else {
                    Step::Wait
                }
            },
            Input::KeyRelease { keycode } => {
                if mode == Mode::Daemon && (keycode == ALT_L_KEYCODE || keycode == ALT_R_KEYCODE) {
                    Step::Activate(self.index)
                } else {
                    Step::Wait
                }
            },
            Input::Other => Step::Wait,
        }
    }
}

/// The selection stays on a window through any run of inputs, and a session
/// activates only a window that exists.
pub proof fn lemma_transition_keeps_index_in_range(mode: Mode, input: Input, index: int, count: int)
    requires
        0 <= index < count,
    ensures
        0 <= transition(mode, input, index, count).0 < count,
        transition(mode, input, index, count).1 matches Step::Activate(i) ==> i < count,
{
}

} // verus!
