//! The to-do panel's data: timed items grouped by day, plus a general list.

use vstd::prelude::*;

verus! {

/// A scheduled slot of a to-do item: start hour, minutes, and duration.
#[derive(Debug, PartialEq, Eq, Structural)]
pub struct TodoItemTime {
    pub duration: u16,
    pub hour: u16,
    pub minutes: u16,
}

/// One to-do entry: its text and an optional scheduled slot.
#[derive(Debug)]
pub struct TodoItem {
    pub message: String,
    pub time: Option<TodoItemTime>,
}

/// The to-do entries of one day.
#[derive(Debug)]
pub struct TodoDay {
    pub items: Vec<TodoItem>,
}

/// All to-do entries: the dated days and the undated general list.
#[derive(Debug)]
pub struct TodosState {
    pub days: Vec<TodoDay>,
    pub general: TodoDay,
}

/// A message of the to-do panel. The panel reacts to nothing yet; the one
/// variant only keeps the type inhabited.
#[derive(Clone, Copy, Debug, PartialEq, Eq, Structural)]
pub enum TodosMessage {
    Noop,
}

/// The to-do panel: its entries and its fixed display width.
pub struct Todos {
    pub todos_state: TodosState,
    pub width: u16,
}

impl Todos {
    /// An empty to-do panel at its fixed width.
    pub fn new() -> (r: Todos)
        ensures
            r.todos_state.days@.len() == 0,
            r.todos_state.general.items@.len() == 0,
            r.width == 385,
    {
        Todos {
            todos_state: TodosState {
                days: Vec::new(),
                general: TodoDay { items: Vec::new() },
            },
            width: 385,
        }
    }
}

} // verus!
