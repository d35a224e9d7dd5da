use crate::stats::PortStats;
use vstd::prelude::*;

verus! {

/// Whether the dashboard keeps running.
#[derive(Clone, Copy, Debug, PartialEq, Eq, Structural)]
pub enum RunningState {
    Running,
    Done,
}

impl Default for RunningState {
    fn default() -> (r: RunningState)
        ensures
            r == RunningState::Running,
    {
        RunningState::Running
    }
}

/// What the dashboard reacts to.
#[derive(Clone, Debug)]
pub enum Message {
    Quit,
    PortListUp { steps: usize },
    PortListDown { steps: usize },
    /// New `(current, diff)` pairs, one per active port.
    StatsUpdate { stats: Vec<(PortStats, PortStats)> },
}

/// The dashboard's state.
#[derive(Clone, Debug)]
pub struct Model {
    pub running_state: RunningState,
    /// The selected row of the port list, if any.
    pub selected: Option<usize>,
    /// `(current, diff)` pairs, one per active port.
    pub stats: Vec<(PortStats, PortStats)>,
}

impl Default for Model {
    fn default() -> (r: Model)
        ensures
            r.running_state == RunningState::Running,
            r.selected is None,
            r.stats@.len() == 0,
    {
        Model { running_state: RunningState::Running, selected: None, stats: Vec::new() }
    }
}

/// The last row of a list of `len` rows, or 0 for an empty list.
pub open spec fn last_row(len: int) -> int {
    if len >= 1 {
        len - 1
    } else {
        0
    }
}

/// The selection after moving up `steps` rows: from the first row it wraps to the last,
/// otherwise it stops at the first; with nothing selected the first row.
pub open spec fn moved_up(selected: Option<usize>, len: int, steps: int) -> int {
    match selected {
        Some(i) => if i == 0 {
            last_row(len)
        } else if i >= steps {
            i - steps
        } else {
            0
        },
        None => 0,
    }
}

/// The selection after moving down `steps` rows: from the last row (or past it) it wraps
/// to the first, otherwise it stops at the last; with nothing selected the first row.
pub open spec fn moved_down(selected: Option<usize>, len: int, steps: int) -> int {
    match selected {
        Some(i) => if i >= last_row(len) {
            0
        } else if i + steps < last_row(len) {
            i + steps
        } else {
            last_row(len)
        },
        None => 0,
    }
}

/// Applies `message` to the model. No message leads to a further one.
pub fn update(model: &mut Model, message: Message) -> (r: Option<Message>)
    ensures
        r is None,
        match message {
            Message::Quit => final(model).running_state == RunningState::Done
                && final(model).selected == old(model).selected && final(model).stats@ == old(
                model,
            ).stats@,
            Message::PortListUp { steps } => final(model).selected == Some(
                moved_up(old(model).selected, old(model).stats@.len() as int, steps as int) as usize,
            ) && final(model).running_state == old(model).running_state && final(model).stats@
                == old(model).stats@,
            Message::PortListDown { steps } => final(model).selected == Some(
                moved_down(old(model).selected, old(model).stats@.len() as int, steps as int)
                    as usize,
            ) && final(model).running_state == old(model).running_state && final(model).stats@
                == old(model).stats@,
            Message::StatsUpdate { stats } => final(model).stats@ == stats@
                && final(model).running_state == old(model).running_state && final(model).selected
                == old(model).selected,
        },
{
    match message {
        Message::Quit => model.running_state = RunningState::Done,
        Message::PortListUp { steps } => {
            let new_selected = match model.selected {
                Some(index) => {
                    if index == 0 {
                        model.stats.len().saturating_sub(1)
                    } else {
                        index.saturating_sub(steps)
                    }
                },
                None => 0,
            };
            model.selected = Some(new_selected);
        },
        Message::PortListDown { steps } => {
            let last = model.stats.len().saturating_sub(1);
            let new_selected = match model.selected {
                Some(index) => {
                    if index >= last {
                        0
                    } else if steps < last - index {
                        index + steps
                    } else {
                        last
                    }
                },
                None => 0,
            };
            model.selected = Some(new_selected);
        },
        Message::StatsUpdate { stats } => model.stats = stats,
    }
    None
}

/// The keys the dashboard tells apart.
#[derive(Clone, Copy, Debug, PartialEq, Eq, Structural)]
pub enum KeyCode {
    Char(char),
    Up,
    Down,
    Other,
}

/// The message for a key press: Ctrl-C quits, `k` or Up moves up a row, `j` or Down moves
/// down a row; other keys are ignored.
pub fn handle_key(code: KeyCode, ctrl_pressed: bool) -> (r: Option<Message>)
    ensures
        (code == KeyCode::Char('c') && ctrl_pressed) ==> r matches Some(Message::Quit),
        (code == KeyCode::Char('k') || code == KeyCode::Up) ==> (r matches Some(
            Message::PortListUp { steps },
        ) && steps == 1),
        (code == KeyCode::Char('j') || code == KeyCode::Down) ==> (r matches Some(
            Message::PortListDown { steps },
        ) && steps == 1),
        !((code == KeyCode::Char('c') && ctrl_pressed) || code == KeyCode::Char('k') || code
            == KeyCode::Up || code == KeyCode::Char('j') || code == KeyCode::Down) ==> r is None,
{
    match code {
        KeyCode::Char('c') if ctrl_pressed => Some(Message::Quit),
        KeyCode::Char('k') | KeyCode::Up => Some(Message::PortListUp { steps: 1 }),
        KeyCode::Char('j') | KeyCode::Down => Some(Message::PortListDown { steps: 1 }),
        _ => None,
    }
}

} // verus!
