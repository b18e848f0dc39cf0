//! The order of the steps that publish an artifact: the file is written, the
//! clipboard is opened, emptied, given the payload and closed, and the stale
//! files are removed. Each step is carried out by the caller, who reports
//! whether it succeeded; the transaction says which step comes next.

use vstd::prelude::*;

verus! {

/// A step that the caller carries out.
#[derive(Clone, Copy, Debug, PartialEq, Eq, Structural)]
pub enum PublishStep {
    /// Write the encoded image to its file.
    WriteFile,
    /// Open the clipboard.
    OpenClipboard,
    /// Empty the clipboard.
    EmptyClipboard,
    /// Allocate the memory that will hold the payload.
    AllocateMemory,
    /// Lock the memory and copy the payload into it.
    FillMemory,
    /// Hand the memory to the clipboard.
    SetClipboardData,
    /// Free the memory that the clipboard did not take.
    FreeMemory,
    /// Close the clipboard.
    CloseClipboard,
    /// Remove the artifacts of earlier runs.
    RemoveStaleFiles,
    /// Nothing is left to do.
    Finished,
}

/// Why nothing was published.
#[derive(Clone, Copy, Debug, PartialEq, Eq, Structural)]
pub enum PublishError {
    /// The image could not be written.
    EncodeFailure,
    /// A step between opening and closing the clipboard failed.
    ClipboardTransactionFailure,
}

/// Where a publication stands: the step to carry out next, and the failure
/// that stopped it, if any.
#[derive(Clone, Copy, Debug, PartialEq, Eq, Structural)]
pub struct PublishTransaction {
    pub pending: PublishStep,
    pub failure: Option<PublishError>,
}

impl PublishTransaction {
    /// The transaction after its pending step has been carried out.
    ///
    /// A failure to write the file or to open the clipboard ends the
    /// transaction at once. A later failure releases what was acquired: the
    /// memory if it was allocated and not taken, then the clipboard. Freeing,
    /// closing and removing stale files are not allowed to fail the
    /// transaction. Stale files are removed only after a publication that
    /// succeeded.
    pub open spec fn after(self, succeeded: bool) -> PublishTransaction {
        let stop = PublishTransaction {
            pending: PublishStep::Finished,
            failure: Some(PublishError::ClipboardTransactionFailure),
        };
        let release = |step: PublishStep|
            PublishTransaction {
                pending: step,
                failure: Some(PublishError::ClipboardTransactionFailure),
            };
        let go = |step: PublishStep| PublishTransaction { pending: step, failure: self.failure };
        match self.pending {
            PublishStep::WriteFile => if succeeded {
                go(PublishStep::OpenClipboard)
            } else {
                PublishTransaction {
                    pending: PublishStep::Finished,
                    failure: Some(PublishError::EncodeFailure),
                }
            },
            PublishStep::OpenClipboard => if succeeded {
                go(PublishStep::EmptyClipboard)
            } else {
                stop
            },
            PublishStep::EmptyClipboard => if succeeded {
                go(PublishStep::AllocateMemory)
            } else {
                release(PublishStep::CloseClipboard)
            },
            PublishStep::AllocateMemory => if succeeded {
                go(PublishStep::FillMemory)
            } else {
                release(PublishStep::CloseClipboard)
            },
            PublishStep::FillMemory => if succeeded {
                go(PublishStep::SetClipboardData)
            } else {
                release(PublishStep::FreeMemory)
            },
            PublishStep::SetClipboardData => if succeeded {
                go(PublishStep::CloseClipboard)
            } else {
                release(PublishStep::FreeMemory)
            },
            PublishStep::FreeMemory => go(PublishStep::CloseClipboard),
            PublishStep::CloseClipboard => if self.failure is None {
                go(PublishStep::RemoveStaleFiles)
            } else {
                go(PublishStep::Finished)
            },
            PublishStep::RemoveStaleFiles => go(PublishStep::Finished),
            PublishStep::Finished => self,
        }
    }

    /// A transaction of which no step has been carried out.
    pub open spec fn started() -> PublishTransaction {
        PublishTransaction { pending: PublishStep::WriteFile, failure: None }
    }

    /// A transaction about to write the file.
    pub fn begin() -> (t: PublishTransaction)
        ensures
            t == Self::started(),
    {
        PublishTransaction { pending: PublishStep::WriteFile, failure: None }
    }

    /// Takes the outcome of the pending step and moves to the next.
    pub fn advance(&mut self, succeeded: bool)
        ensures
            *final(self) == old(self).after(succeeded),
    {
        let failed = Some(PublishError::ClipboardTransactionFailure);
        match self.pending {
            PublishStep::WriteFile => {
                if succeeded {
                    self.pending = PublishStep::OpenClipboard;
                } else {
                    self.pending = PublishStep::Finished;
                    self.failure = Some(PublishError::EncodeFailure);
                }
            },
            PublishStep::OpenClipboard => {
                if succeeded {
                    self.pending = PublishStep::EmptyClipboard;
                } else {
                    self.pending = PublishStep::Finished;
                    self.failure = failed;
                }
            },
            PublishStep::EmptyClipboard => {
                if succeeded {
                    self.pending = PublishStep::AllocateMemory;
                } else {
                    self.pending = PublishStep::CloseClipboard;
                    self.failure = failed;
                }
            },
            PublishStep::AllocateMemory => {
                if succeeded {
                    self.pending = PublishStep::FillMemory;
                } else {
                    self.pending = PublishStep::CloseClipboard;
                    self.failure = failed;
                }
            },
            PublishStep::FillMemory => {
                if succeeded {
                    self.pending = PublishStep::SetClipboardData;
                } else {
                    self.pending = PublishStep::FreeMemory;
                    self.failure = failed;
                }
            },
            PublishStep::SetClipboardData => {
                if succeeded {
                    self.pending = PublishStep::CloseClipboard;
                } else {
                    self.pending = PublishStep::FreeMemory;
                    self.failure = failed;
                }
            },
            PublishStep::FreeMemory => {
                self.pending = PublishStep::CloseClipboard;
            },
            PublishStep::CloseClipboard => {
                if self.failure.is_none() {
                    self.pending = PublishStep::RemoveStaleFiles;
                } else {
                    self.pending = PublishStep::Finished;
                }
            },
            PublishStep::RemoveStaleFiles => {
                self.pending = PublishStep::Finished;
            },
            PublishStep::Finished => {},
        }
    }

    /// Whether the transaction is over.
    pub fn is_finished(&self) -> (r: bool)
        ensures
            r == (self.pending == PublishStep::Finished),
    {
        match self.pending {
            PublishStep::Finished => true,
            _ => false,
        }
    }

    /// The transaction after a run of outcomes, one for each step in turn.
    pub open spec fn run(self, outcomes: Seq<bool>) -> PublishTransaction
        decreases outcomes.len(),
    {
        if outcomes.len() == 0 {
            self
        } else {
            self.run(outcomes.drop_last()).after(outcomes.last())
        }
    }

    /// Whether the clipboard is open while the pending step is carried out
    /// or waited for: from the step after opening it up to closing it.
    pub open spec fn clipboard_open(self) -> bool {
        match self.pending {
            PublishStep::EmptyClipboard
            | PublishStep::AllocateMemory
            | PublishStep::FillMemory
            | PublishStep::SetClipboardData
            | PublishStep::FreeMemory
            | PublishStep::CloseClipboard => true,
            _ => false,
        }
    }

    /// Whether memory is allocated that the clipboard has not taken.
    pub open spec fn holds_memory(self) -> bool {
        match self.pending {
            PublishStep::FillMemory | PublishStep::SetClipboardData | PublishStep::FreeMemory => true,
            _ => false,
        }
    }

    /// How many steps are left at most.
    pub open spec fn steps_left(self) -> nat {
        match self.pending {
            PublishStep::WriteFile => 9,
            PublishStep::OpenClipboard => 8,
            PublishStep::EmptyClipboard => 7,
            PublishStep::AllocateMemory => 6,
            PublishStep::FillMemory => 5,
            PublishStep::SetClipboardData => 4,
            PublishStep::FreeMemory => 3,
            PublishStep::CloseClipboard => 2,
            PublishStep::RemoveStaleFiles => 1,
            PublishStep::Finished => 0,
        }
    }

    /// A failure is recorded only on the way out: before any step has failed
    /// none is, and once one is the transaction only releases what it holds.
    pub open spec fn consistent(self) -> bool {
        self.failure is Some ==> {
            ||| self.pending == PublishStep::FreeMemory
            ||| self.pending == PublishStep::CloseClipboard
            ||| self.pending == PublishStep::Finished
        }
    }
}

/// Every step brings the end nearer, and the transaction never ends with the
/// clipboard open or with memory that nobody owns: it is closed, and the
/// memory freed, by steps of their own before `Finished` is reached.
pub proof fn lemma_step_releases(t: PublishTransaction, succeeded: bool)
    requires
        t.pending != PublishStep::Finished,
    ensures
        t.after(succeeded).steps_left() < t.steps_left(),
        t.clipboard_open() && t.pending != PublishStep::CloseClipboard ==> t.after(
            succeeded,
        ).clipboard_open(),
        t.holds_memory() && t.pending != PublishStep::FreeMemory && !(t.pending
            == PublishStep::SetClipboardData && succeeded) ==> t.after(succeeded).holds_memory(),
        t.consistent() ==> t.after(succeeded).consistent(),
        t.consistent() && t.failure is Some ==> t.after(succeeded).failure == t.failure,
        !succeeded && t.pending != PublishStep::FreeMemory && t.pending
            != PublishStep::CloseClipboard && t.pending != PublishStep::RemoveStaleFiles
            ==> t.after(succeeded).failure is Some,
{
}

/// Nine outcomes end any transaction.
pub proof fn lemma_finishes(t: PublishTransaction, outcomes: Seq<bool>)
    ensures
        t.run(outcomes).steps_left() + outcomes.len() <= t.steps_left() || t.run(
            outcomes,
        ).pending == PublishStep::Finished,
        outcomes.len() >= 9 ==> t.run(outcomes).pending == PublishStep::Finished,
    decreases outcomes.len(),
{
    if outcomes.len() > 0 {
        lemma_finishes(t, outcomes.drop_last());
        let before = t.run(outcomes.drop_last());
        if before.pending != PublishStep::Finished {
            lemma_step_releases(before, outcomes.last());
        }
    }
}

/// A transaction of which every step succeeds ends without a failure, after
/// the steps to write, open, empty, allocate, fill, set, close and remove.
pub proof fn lemma_success_path()
    ensures
        PublishTransaction::started().run(seq![true, true, true, true, true, true, true, true])
            == (PublishTransaction { pending: PublishStep::Finished, failure: None }),
{
    let t = PublishTransaction::started();
    let o = seq![true, true, true, true, true, true, true, true];
    let o7 = o.drop_last();
    let o6 = o7.drop_last();
    let o5 = o6.drop_last();
    let o4 = o5.drop_last();
    let o3 = o4.drop_last();
    let o2 = o3.drop_last();
    let o1 = o2.drop_last();
    let o0 = o1.drop_last();
    assert(t.run(o0) == t);
    assert(t.run(o1).pending == PublishStep::OpenClipboard);
    assert(t.run(o2).pending == PublishStep::EmptyClipboard);
    assert(t.run(o3).pending == PublishStep::AllocateMemory);
    assert(t.run(o4).pending == PublishStep::FillMemory);
    assert(t.run(o5).pending == PublishStep::SetClipboardData);
    assert(t.run(o6).pending == PublishStep::CloseClipboard);
    assert(t.run(o7).pending == PublishStep::RemoveStaleFiles);
}

/// Once a step has failed, the transaction ends with that failure and never
/// asks to set clipboard data or to remove stale files.
pub proof fn lemma_failure_aborts(t: PublishTransaction, outcomes: Seq<bool>)
    requires
        t.consistent(),
        t.failure is Some,
    ensures
        t.run(outcomes).failure == t.failure,
        t.run(outcomes).consistent(),
    decreases outcomes.len(),
{
    if outcomes.len() > 0 {
        lemma_failure_aborts(t, outcomes.drop_last());
        let before = t.run(outcomes.drop_last());
        if before.pending != PublishStep::Finished {
            lemma_step_releases(before, outcomes.last());
        }
    }
}

} // verus!
