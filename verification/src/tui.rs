//! The decision core of the render/input loop: which navigation operation
//! each key press performs, and how long one tick may wait for input.
//!
//! The loop itself — drawing frames, polling the terminal — lives with the
//! caller; it hands every key press to `handle_key` and waits no longer than
//! `remaining_timeout_ms` says.

use vstd::prelude::*;
use vstd::string::StringExecFns;
use crate::AppArguments;
use crate::clef::ClefEvent;
use crate::state::{StatefulList, spec_next, spec_previous};

verus! {

/// The title of the main frame: the open file's path after `Reading File: `.
pub fn main_title(file_path: &String) -> (r: String)
    ensures
        r@ == "Reading File: "@ + file_path@,
{
    let mut title = String::from_str("Reading File: ");
    title.append(file_path.as_str());
    title
}

/// The whole state of the viewer: the arguments it was started with and the
/// cursor over the loaded events.
#[derive(Debug)]
pub struct App {
    pub args: AppArguments,
    pub items: StatefulList<ClefEvent>,
}

impl App {
    /// Builds the viewer state over the loaded events, with no selection.
    pub fn new(args: AppArguments, items: Vec<ClefEvent>) -> (r: App)
        ensures
            r.items.wf(),
            r.items.selected is None,
            r.items.items == items,
            r.args == args,
    {
        App { args, items: StatefulList::with_items(items) }
    }
}

/// A key press the viewer reacts to; any other input is `Other`.
#[derive(Debug, Clone, Copy, PartialEq, Eq, Structural)]
pub enum KeyInput {
    Char(char),
    Enter,
    Up,
    Down,
    Other,
}

/// The step size of a cursor movement: ten rows with the modifier held, one
/// row without.
pub open spec fn spec_step(shift: bool) -> usize {
    if shift {
        10
    } else {
        1
    }
}

/// Dispatches one key press on the viewer state and says whether the loop
/// must terminate: `q` quits, `Enter` clears the selection, `Down` and `Up`
/// move the cursor by one row — or by ten with the modifier held — and every
/// other key changes nothing.
pub fn handle_key(app: &mut App, key: KeyInput, shift: bool) -> (quit: bool)
    requires
        old(app).items.wf(),
    ensures
        final(app).items.wf(),
        final(app).args == old(app).args,
        final(app).items.items == old(app).items.items,
        quit == (key == KeyInput::Char('q')),
        key == KeyInput::Char('q') ==> *final(app) == *old(app),
        key == KeyInput::Enter ==> final(app).items.selected is None,
        key == KeyInput::Down ==> final(app).items.selected == spec_next(
            old(app).items.selected,
            old(app).items.items@.len(),
            spec_step(shift),
        ),
        key == KeyInput::Up ==> final(app).items.selected == spec_previous(
            old(app).items.selected,
            old(app).items.items@.len(),
            spec_step(shift),
        ),
        (key == KeyInput::Other || (key matches KeyInput::Char(c) && c != 'q')) ==> *final(app)
            == *old(app),
{
    let step: usize = if shift {
        10
    } else {
        1
    };
    match key {
        KeyInput::Char(c) => c == 'q',
        KeyInput::Enter => {
            app.items.unselect();
            false
        },
        KeyInput::Down => {
            app.items.next(step);
            false
        },
        KeyInput::Up => {
            app.items.previous(step);
            false
        },
        KeyInput::Other => false,
    }
}

/// How long the input poll of one tick may still wait: the tick budget minus
/// the time already elapsed since the last tick, and zero once the budget is
/// spent.
pub fn remaining_timeout_ms(tick_budget_ms: u64, elapsed_ms: u64) -> (r: u64)
    ensures
        r == if elapsed_ms >= tick_budget_ms {
            0u64
        } else {
            (tick_budget_ms - elapsed_ms) as u64
        },
{
    if elapsed_ms >= tick_budget_ms {
        0
    } else {
        tick_budget_ms - elapsed_ms
    }
}

} // verus!
