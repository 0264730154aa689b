//! Progress reporting for an action: in progress, then succeeded or failed.
//! The reporter decides what to print; writing it out is the caller's part.

use vstd::prelude::*;
use crate::style::{BOLD, CYAN, ERASE_LINE_UP, GREEN, RED, RESET};

verus! {

/// The state of an action.
#[derive(Debug, Clone, Copy, PartialEq, Eq, Structural)]
pub enum ActionState {
    /// The action is in progress.
    InProgress,
    /// The action was a success.
    Success,
    /// The action was an error.
    Fail,
}

/// Action progress reporter.
#[derive(Debug, Clone)]
pub struct Action {
    /// The current state of the action.
    pub state: ActionState,
    /// Verb for the in progress action.
    pub actioning_verb: String,
    /// Verb for the completed action.
    pub actioned_verb: String,
    /// Details for the action.
    pub detail: String,
    /// Should the action erase the previous line when printing the next state.
    pub should_erase: bool,
}

/// The line that shows the state of `a`, after a code that erases the
/// previous line if that line showed an earlier state.
pub open spec fn status_text(a: Action) -> Seq<char> {
    (if a.should_erase {
        ERASE_LINE_UP@
    } else {
        Seq::empty()
    }) + match a.state {
        ActionState::InProgress => CYAN@ + BOLD@ + a.actioning_verb@ + RESET@ + " "@ + a.detail@ + "\n"@,
        ActionState::Success => GREEN@ + BOLD@ + a.actioned_verb@ + RESET@ + " "@ + a.detail@ + "\n"@,
        ActionState::Fail => RED@ + BOLD@ + a.actioning_verb@ + RESET@ + " "@ + a.detail@ + " "@ + RED@
            + BOLD@ + "failed"@ + RESET@ + "\n"@,
    }
}

impl Action {
    /// Create a new in progress action; its first status line comes from
    /// [`Action::print`].
    pub fn new(actioning_verb: &str, actioned_verb: &str, detail: &str) -> (r: Self)
        ensures
            r.state == ActionState::InProgress,
            r.actioning_verb@ == actioning_verb@,
            r.actioned_verb@ == actioned_verb@,
            r.detail@ == detail@,
            !r.should_erase,
    {
        Action {
            state: ActionState::InProgress,
            actioning_verb: actioning_verb.to_string(),
            actioned_verb: actioned_verb.to_string(),
            detail: detail.to_string(),
            should_erase: false,
        }
    }

    /// The text that shows the current state; the next one will erase it.
    pub fn print(&mut self) -> (r: String)
        ensures
            r@ == status_text(*old(self)),
            final(self).should_erase,
            final(self).state == old(self).state,
            final(self).actioning_verb == old(self).actioning_verb,
            final(self).actioned_verb == old(self).actioned_verb,
            final(self).detail == old(self).detail,
    {
        let mut out = String::new();
        if self.should_erase {
            out.append(ERASE_LINE_UP);
        }
        match self.state {
            ActionState::InProgress => {
                out.append(CYAN);
                out.append(BOLD);
                out.append(self.actioning_verb.as_str());
                out.append(RESET);
                out.append(" ");
                out.append(self.detail.as_str());
                out.append("\n");
            },
            ActionState::Success => {
                out.append(GREEN);
                out.append(BOLD);
                out.append(self.actioned_verb.as_str());
                out.append(RESET);
                out.append(" ");
                out.append(self.detail.as_str());
                out.append("\n");
            },
            ActionState::Fail => {
                out.append(RED);
                out.append(BOLD);
                out.append(self.actioning_verb.as_str());
                out.append(RESET);
                out.append(" ");
                out.append(self.detail.as_str());
                out.append(" ");
                out.append(RED);
                out.append(BOLD);
                out.append("failed");
                out.append(RESET);
                out.append("\n");
            },
        }
        assert(out@ =~= status_text(*old(self)));
        self.should_erase = true;
        out
    }

    /// Report the action as failed: the text to show.
    pub fn report_fail(&mut self) -> (r: String)
        ensures
            r@ == status_text(Action { state: ActionState::Fail, ..*old(self) }),
            final(self).state == ActionState::Fail,
            final(self).should_erase,
    {
        self.state = ActionState::Fail;
        self.print()
    }

    /// Report the action as a success: the text to show.
    pub fn report_success(&mut self) -> (r: String)
        ensures
            r@ == status_text(Action { state: ActionState::Success, ..*old(self) }),
            final(self).state == ActionState::Success,
            final(self).should_erase,
    {
        self.state = ActionState::Success;
        self.print()
    }

    /// Disable erasing the previous line on next print.
    pub fn dont_erase(&mut self)
        ensures
            *final(self) == (Action { should_erase: false, ..*old(self) }),
    {
        self.should_erase = false;
    }
}

} // verus!
