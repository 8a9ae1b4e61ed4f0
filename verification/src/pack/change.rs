//! Changing files and the ledger together, or neither.

use vstd::prelude::*;

verus! {

/// What is done next in a change.
#[derive(Debug, Clone, Copy, PartialEq, Eq, Structural)]
pub enum ChangeStep {
    /// The files are moved.
    Move,
    /// The ledger is written.
    Publish,
    /// The files are moved back.
    MoveBack,
    /// The change is made.
    Made,
    /// Nothing is changed.
    Undone,
    /// The files could not be moved back, and are kept where they are.
    Kept,
}

/// A change of files and, where that says something else then, of the ledger.
#[derive(Debug, Clone, Copy, PartialEq, Eq, Structural)]
pub struct Change {
    /// Whether the ledger has to be written.
    pub publishes: bool,
    /// Whether the files are moved.
    pub moved: bool,
    /// Whether the ledger is written.
    pub published: bool,
    /// What is done next.
    pub step: ChangeStep,
}

impl Change {
    /// Whether the files and the ledger are as the next step takes them to be.
    pub open spec fn is_consistent(self) -> bool {
        match self.step {
            ChangeStep::Move => !self.moved && !self.published,
            ChangeStep::Publish => self.publishes && self.moved && !self.published,
            ChangeStep::MoveBack => self.publishes && self.moved && !self.published,
            ChangeStep::Made => self.moved && (self.published == self.publishes),
            ChangeStep::Undone => !self.moved && !self.published,
            ChangeStep::Kept => self.moved && !self.published,
        }
    }

    /// The change after a step that succeeded or failed; a change that is over stays as it is.
    pub open spec fn after(self, succeeded: bool) -> Change {
        match self.step {
            ChangeStep::Move => if !succeeded {
                Change { step: ChangeStep::Undone, ..self }
            } else if self.publishes {
                Change { moved: true, step: ChangeStep::Publish, ..self }
            } else {
                Change { moved: true, step: ChangeStep::Made, ..self }
            },
            ChangeStep::Publish => if succeeded {
                Change { published: true, step: ChangeStep::Made, ..self }
            } else {
                Change { step: ChangeStep::MoveBack, ..self }
            },
            ChangeStep::MoveBack => if succeeded {
                Change { moved: false, step: ChangeStep::Undone, ..self }
            } else {
                Change { step: ChangeStep::Kept, ..self }
            },
            _ => self,
        }
    }

    /// Starts a change.
    pub fn begin(publishes: bool) -> (change: Change)
        ensures
            change == (Change {
                publishes,
                moved: false,
                published: false,
                step: ChangeStep::Move,
            }),
            change.is_consistent(),
    {
        Change { publishes, moved: false, published: false, step: ChangeStep::Move }
    }

    /// Takes note of how the step went.
    pub fn proceed(&mut self, succeeded: bool)
        ensures
            *final(self) == old(self).after(succeeded),
            old(self).is_consistent() ==> final(self).is_consistent(),
    {
        match self.step {
            ChangeStep::Move => {
                if !succeeded {
                    self.step = ChangeStep::Undone;
                } else {
                    self.moved = true;
                    self.step = if self.publishes {
                        ChangeStep::Publish
                    } else {
                        ChangeStep::Made
                    };
                }
            },
            ChangeStep::Publish => {
                if succeeded {
                    self.published = true;
                    self.step = ChangeStep::Made;
                } else {
                    self.step = ChangeStep::MoveBack;
                }
            },
            ChangeStep::MoveBack => {
                if succeeded {
                    self.moved = false;
                    self.step = ChangeStep::Undone;
                } else {
                    self.step = ChangeStep::Kept;
                }
            },
            _ => {},
        }
    }
}

/// Whether a ledger counts as written: it was, or it can be seen to be there all the same.
pub fn is_published(written: bool, visible: bool) -> (published: bool)
    ensures
        published == (written || visible),
{
    written || visible
}

/// A change never ends with moved files and a ledger that does not know of them, unless moving them
/// back failed too; and once a step fails, it never ends as made.
pub proof fn law_change_is_atomic(change: Change, succeeded: bool)
    requires
        change.is_consistent(),
    ensures
        change.step is Made ==> change.moved && change.published == change.publishes,
        change.step is Undone ==> !change.moved && !change.published,
        !succeeded && !(change.step is Made) ==> !(change.after(succeeded).step is Made),
        change.after(succeeded).step is Kept ==> change.step is Kept || (change.step is MoveBack
            && !succeeded),
        change.after(succeeded).is_consistent(),
{
}

} // verus!
