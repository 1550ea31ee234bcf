//! Asking the user: the state of a question for a password, and the choice of one
//! entry of several by its number. The caller does the asking; what to ask for, and
//! what an answer means, is decided here.

use vstd::prelude::*;

verus! {

/// How often a number is asked for before the choice is given up.
pub const MAX_TRIES: usize = 3;

/// What came back from asking for a number.
#[derive(Debug, Clone, Copy, PartialEq, Eq)]
pub enum Answer {
    /// A number was read.
    Number(usize),
    /// The input was interrupted.
    Interrupted,
    /// Something was read that is no number.
    Unreadable,
}

/// A question for a number from `min` to `max`, and how often it may still be put.
#[derive(Debug, Clone, Copy, PartialEq, Eq)]
pub struct Prompt {
    pub min: usize,
    pub max: usize,
    pub tries_left: usize,
}

/// What follows an answer to a question.
#[derive(Debug, Clone, Copy, PartialEq, Eq)]
pub enum Asked {
    /// The number that was chosen.
    Value(usize),
    /// Ask again.
    Retry(Prompt),
    /// No number was chosen.
    GiveUp,
}

/// Where the choice of an entry stands.
#[derive(Debug, Clone, Copy, PartialEq, Eq)]
pub enum Selection {
    /// Ask for the number of an entry, counted from one.
    Ask(Prompt),
    /// The index of the chosen entry, counted from zero.
    Entry(usize),
    /// Nothing was chosen.
    Abandoned,
}

/// What follows an answer: a number in range is the value; an interruption gives
/// up; anything else asks again while tries are left.
pub open spec fn asked(prompt: Prompt, answer: Answer) -> Asked {
    match answer {
        Answer::Number(n) if prompt.min <= n <= prompt.max => Asked::Value(n),
        Answer::Interrupted => Asked::GiveUp,
        _ => if prompt.tries_left > 1 {
            Asked::Retry(Prompt { tries_left: (prompt.tries_left - 1) as usize, ..prompt })
        } else {
            Asked::GiveUp
        },
    }
}

/// Where the choice among `count` entries starts: nothing to choose from none, the
/// only entry of one, and a question otherwise.
pub open spec fn selection_start(count: usize) -> Selection {
    if count == 0 {
        Selection::Abandoned
    } else if count == 1 {
        Selection::Entry(0)
    } else {
        Selection::Ask(Prompt { min: 1, max: count, tries_left: MAX_TRIES })
    }
}

/// Where the choice stands after an answer.
pub open spec fn selection_after(prompt: Prompt, answer: Answer) -> Selection {
    match asked(prompt, answer) {
        Asked::Value(n) => Selection::Entry((n - 1) as usize),
        Asked::Retry(next) => Selection::Ask(next),
        Asked::GiveUp => Selection::Abandoned,
    }
}

/// Takes the answer to a question for a number in a range.
pub fn prompt_in_range(prompt: Prompt, answer: Answer) -> (next: Asked)
    ensures
        next == asked(prompt, answer),
{
    match answer {
        Answer::Number(n) => {
            if prompt.min <= n && n <= prompt.max {
                return Asked::Value(n);
            }
        },
        Answer::Interrupted => {
            return Asked::GiveUp;
        },
        Answer::Unreadable => {},
    }
    if prompt.tries_left > 1 {
        Asked::Retry(Prompt { min: prompt.min, max: prompt.max, tries_left: prompt.tries_left - 1 })
    } else {
        Asked::GiveUp
    }
}

/// Starts the choice among `count` entries.
pub fn begin_selection(count: usize) -> (selection: Selection)
    ensures
        selection == selection_start(count),
{
    if count == 0 {
        Selection::Abandoned
    } else if count == 1 {
        Selection::Entry(0)
    } else {
        Selection::Ask(Prompt { min: 1, max: count, tries_left: MAX_TRIES })
    }
}

/// Takes the answer to the question for an entry.
pub fn continue_selection(prompt: Prompt, answer: Answer) -> (selection: Selection)
    requires
        prompt.min >= 1,
    ensures
        selection == selection_after(prompt, answer),
{
    match prompt_in_range(prompt, answer) {
        Asked::Value(n) => Selection::Entry(n - 1),
        Asked::Retry(next) => Selection::Ask(next),
        Asked::GiveUp => Selection::Abandoned,
    }
}

/// A choice among `count` entries only ever names one of them, and every question
/// it puts leaves fewer tries than the one before.
pub proof fn lemma_selection_in_range(count: usize, prompt: Prompt, answer: Answer)
    requires
        prompt.min == 1,
        prompt.max == count,
    ensures
        selection_start(count) matches Selection::Entry(index) ==> index < count,
        selection_after(prompt, answer) matches Selection::Entry(index) ==> index < count,
        selection_after(prompt, answer) matches Selection::Ask(next) ==> next.min == 1
            && next.max == count && next.tries_left < prompt.tries_left,
{
}

/// The state of a question for a password: whether the field is to get the focus,
/// whether the last password failed, and what has been typed.
#[derive(Debug, Clone, PartialEq, Eq)]
pub struct PasswordWindow {
    pub select: bool,
    pub failure: bool,
    pub password: String,
}

impl PasswordWindow {
    /// A fresh question: the field gets the focus, nothing has failed and nothing
    /// has been typed.
    pub fn open() -> (window: Self)
        ensures
            window.select,
            !window.failure,
            window.password@.len() == 0,
    {
        PasswordWindow { select: true, failure: false, password: String::new() }
    }

    /// The question after its password has failed: the field gets the focus again
    /// and shows the failure; what was typed stays.
    pub fn failed(self) -> (window: Self)
        ensures
            window.select,
            window.failure,
            window.password == self.password,
    {
        PasswordWindow { select: true, failure: true, password: self.password }
    }
}

} // verus!
