//! Errors.

use vstd::prelude::*;

verus! {

/// What can go wrong with a tmux command.
#[derive(Clone, Debug)]
pub enum BosunError {
    /// It could not be run; this is the system's message.
    Io(String),
    /// It ran and failed.
    Tmux(String),
}

/// The model of an error.
pub enum BosunErrorView {
    Io(Seq<char>),
    Tmux(Seq<char>),
}

impl View for BosunError {
    type V = BosunErrorView;

    open spec fn view(&self) -> BosunErrorView {
        match self {
            BosunError::Io(text) => BosunErrorView::Io(text@),
            BosunError::Tmux(text) => BosunErrorView::Tmux(text@),
        }
    }
}

/// A result by the model of its error.
pub open spec fn result_view(res: Result<(), BosunError>) -> Result<(), BosunErrorView> {
    match res {
        Ok(()) => Ok(()),
        Err(e) => Err(e@),
    }
}

} // verus!
