//! The batch of renames, in two phases.
//!
//! An [`Executor`] hands out one rename at a time and is told how each went.
//! In the first phase it addresses the pairs of an original name and a target
//! name, from the last one down. A target that is still the original name of a
//! pair not yet addressed is not renamed onto: the entry goes to a temporary
//! name first, and from there to its target in the second phase.

use crate::error::Error;
use crate::tempfile_ext::{contains_name, has_name, has_tmp_name, is_tmp_name, new_tmp_file_name};
use std::collections::VecDeque;
use vstd::prelude::*;

verus! {

/// An original name and the name that its entry is to have.
pub type Pair = (Seq<char>, Seq<char>);

/// What an [`Executor`] holds.
pub struct Batch {
    /// The pairs that are not addressed yet; the last one comes first.
    pub pending: Seq<Pair>,
    /// The entries that stand under a temporary name, each with its target;
    /// the first one comes first.
    pub deferred: Seq<Pair>,
    /// The failures so far, in the order they came.
    pub failures: Seq<Error>,
}

/// Whether `name` is the original name of one of `pending`.
pub open spec fn is_pending_original(pending: Seq<Pair>, name: Seq<char>) -> bool {
    exists|i: int| 0 <= i < pending.len() && (#[trigger] pending[i]).0 == name
}

/// Whether one of `pending` has an original name in the form of a temporary name.
pub open spec fn has_pending_tmp_name(pending: Seq<Pair>) -> bool {
    exists|i: int| 0 <= i < pending.len() && is_tmp_name((#[trigger] pending[i]).0)
}

/// The pairs of `originals` and `targets`, position by position.
pub open spec fn paired(originals: Seq<String>, targets: Seq<String>) -> Seq<Pair> {
    Seq::new(originals.len(), |i: int| (originals[i]@, targets[i]@))
}

impl Batch {
    /// The batch before anything is done: `pending`, and nothing else.
    pub open spec fn fresh(pending: Seq<Pair>) -> Batch {
        Batch { pending, deferred: Seq::empty(), failures: Seq::empty() }
    }

    /// Whether nothing is left to do.
    pub open spec fn is_done(self) -> bool {
        self.pending.len() == 0 && self.deferred.len() == 0
    }

    /// The pairs that stay pending when the next one is addressed.
    pub open spec fn rest(self) -> Seq<Pair> {
        self.pending.drop_last()
    }

    /// Whether the next pair asks for no rename: its names are the same.
    pub open spec fn is_unchanged(self) -> bool {
        self.pending.last().0 == self.pending.last().1
    }

    /// Whether the target of the next pair is the original name of a pair that
    /// stays pending.
    pub open spec fn collides(self) -> bool {
        is_pending_original(self.rest(), self.pending.last().1)
    }

    /// The rename that addresses the next pair, if the pair asks for one, where
    /// `temp` is the temporary name that is drawn if the pair needs one.
    pub open spec fn first_phase_rename(self, temp: Seq<char>) -> Option<AttemptView> {
        let (original, target) = self.pending.last();
        if self.is_unchanged() {
            None
        } else if self.collides() {
            Some(AttemptView { from: original, to: temp, onward: Some(target) })
        } else {
            Some(AttemptView { from: original, to: target, onward: None })
        }
    }

    /// The rename that takes the first deferred entry to its target.
    pub open spec fn second_phase_rename(self) -> AttemptView {
        AttemptView { from: self.deferred[0].0, to: self.deferred[0].1, onward: None }
    }

    /// The batch with the next pair taken out of `pending`.
    pub open spec fn addressed(self) -> Batch {
        Batch { pending: self.rest(), ..self }
    }

    /// The batch with the first entry taken out of `deferred`.
    pub open spec fn resumed(self) -> Batch {
        Batch { deferred: self.deferred.drop_first(), ..self }
    }

    /// The batch after the rename `attempt` went well: an entry that was
    /// renamed to a temporary name is deferred.
    pub open spec fn settled(self, attempt: AttemptView) -> Batch {
        match attempt.onward {
            Some(target) => Batch { deferred: self.deferred.push((attempt.to, target)), ..self },
            None => self,
        }
    }

    /// Whether `self` is `before` with one failure more, and what the failure is.
    pub open spec fn failed_after(self, before: Batch) -> Option<Error> {
        if self.pending == before.pending && self.deferred == before.deferred
            && self.failures.len() == before.failures.len() + 1 && self.failures.drop_last()
            == before.failures {
            Some(self.failures.last())
        } else {
            None
        }
    }
}

/// One rename to attempt.
pub struct Attempt {
    /// The name that the entry has.
    pub from: String,
    /// The name that the entry is to get.
    pub to: String,
    /// Where `to` is a temporary name: the target that the entry goes on to in
    /// the second phase.
    pub onward: Option<String>,
}

/// What an [`Attempt`] holds.
pub struct AttemptView {
    pub from: Seq<char>,
    pub to: Seq<char>,
    pub onward: Option<Seq<char>>,
}

impl View for Attempt {
    type V = AttemptView;

    open spec fn view(&self) -> AttemptView {
        AttemptView {
            from: self.from@,
            to: self.to@,
            onward: match self.onward {
                Some(target) => Some(target@),
                None => None,
            },
        }
    }
}

/// What [`Executor::step`] found to do.
pub enum Step {
    /// Nothing is left to do.
    Done,
    /// The next pair asks for no rename: the entry has its target name.
    Unchanged,
    /// The next pair needs a temporary name and none was found; the failure is
    /// recorded, and nothing is renamed for this pair.
    NoTemporaryName,
    /// A rename to attempt and to report with [`Executor::settle`].
    Attempt(Attempt),
}

/// A batch of renames under way.
pub struct Executor {
    originals: Vec<String>,
    targets: Vec<String>,
    deferred: VecDeque<(String, String)>,
    failures: Vec<Error>,
}

impl View for Executor {
    type V = Batch;

    closed spec fn view(&self) -> Batch {
        Batch {
            pending: paired(self.originals@, self.targets@),
            deferred: Seq::new(
                self.deferred@.len(),
                |i: int| (self.deferred@[i].0@, self.deferred@[i].1@),
            ),
            failures: self.failures@,
        }
    }
}

impl Executor {
    /// Whether every original name has its target.
    pub closed spec fn wf(&self) -> bool {
        self.originals@.len() == self.targets@.len()
    }

    /// The executor for the entries `file_names`, where the entry at each
    /// position is to get the name at the same position of `new_file_names`.
    /// Two lists of different lengths are refused, and nothing is renamed.
    pub fn new(file_names: Vec<String>, new_file_names: Vec<String>) -> (made: Result<
        Executor,
        Error,
    >)
        ensures
            made is Err <==> file_names@.len() != new_file_names@.len(),
            made matches Err(e) ==> e is CountMismatch,
            made matches Ok(executor) ==> executor.wf() && executor@ == Batch::fresh(
                paired(file_names@, new_file_names@),
            ),
    {
        if file_names.len() != new_file_names.len() {
            return Err(Error::CountMismatch);
        }
        let executor = Executor {
            originals: file_names,
            targets: new_file_names,
            deferred: VecDeque::new(),
            failures: Vec::new(),
        };
        assert(executor@.deferred =~= Seq::empty());
        Ok(executor)
    }

    /// Whether nothing is left to do.
    pub fn is_done(&self) -> (done: bool)
        requires
            self.wf(),
        ensures
            done == self@.is_done(),
    {
        self.originals.len() == 0 && self.deferred.len() == 0
    }

    /// Addresses the next pair, or, when no pair is pending, the next entry
    /// that stands under a temporary name.
    ///
    /// A pair whose names are the same asks for nothing. A pair whose target
    /// is the original name of a pair still pending is moved out of the way:
    /// the rename goes to a temporary name that is no original name of a pair
    /// still pending. Any other pair is renamed to its target directly.
    pub fn step(&mut self, rng: &mut fastrand::Rng) -> (step: Step)
        requires
            old(self).wf(),
        ensures
            final(self).wf(),
            match step {
                Step::Done => old(self)@.is_done() && final(self)@ == old(self)@,
                Step::Unchanged => {
                    &&& old(self)@.pending.len() > 0
                    &&& old(self)@.is_unchanged()
                    &&& final(self)@ == old(self)@.addressed()
                },
                Step::NoTemporaryName => {
                    &&& old(self)@.pending.len() > 0
                    &&& !old(self)@.is_unchanged()
                    &&& old(self)@.collides()
                    &&& has_pending_tmp_name(old(self)@.rest())
                    &&& final(self)@.failed_after(old(self)@.addressed()) matches Some(e)
                    &&& e is Io
                },
                Step::Attempt(attempt) => if old(self)@.pending.len() > 0 {
                    &&& old(self)@.first_phase_rename(attempt@.to) == Some(attempt@)
                    &&& attempt@.onward is Some ==> is_tmp_name(attempt@.to)
                        && !is_pending_original(old(self)@.rest(), attempt@.to)
                    &&& final(self)@ == old(self)@.addressed()
                } else {
                    &&& old(self)@.deferred.len() > 0
                    &&& attempt@ == old(self)@.second_phase_rename()
                    &&& final(self)@ == old(self)@.resumed()
                },
            },
    {
        let ghost before = self@;
        if self.originals.len() > 0 {
            let file_name = self.originals.pop().unwrap();
            let new_file_name = self.targets.pop().unwrap();
            assert(self@.pending =~= before.rest());
            assert(self@ == before.addressed());
            proof {
                self.lemma_pending_originals(new_file_name@);
                self.lemma_pending_tmp_names();
            }
            if file_name == new_file_name {
                return Step::Unchanged;
            }
            if contains_name(self.originals.as_slice(), &new_file_name) {
                // the target is still in use: out of the way first
                match new_tmp_file_name(self.originals.as_slice(), rng) {
                    Ok(temp_file_name) => {
                        proof {
                            self.lemma_pending_originals(temp_file_name@);
                        }
                        Step::Attempt(
                            Attempt {
                                from: file_name,
                                to: temp_file_name,
                                onward: Some(new_file_name),
                            },
                        )
                    },
                    Err(source) => {
                        self.failures.push(Error::Io(source));
                        assert(self@.failures.drop_last() =~= before.failures);
                        Step::NoTemporaryName
                    },
                }
            } else {
                Step::Attempt(Attempt { from: file_name, to: new_file_name, onward: None })
            }
        } else if self.deferred.len() > 0 {
            let (temp_file_name, new_file_name) = self.deferred.pop_front().unwrap();
            assert(self@.deferred =~= before.deferred.drop_first());
            Step::Attempt(Attempt { from: temp_file_name, to: new_file_name, onward: None })
        } else {
            Step::Done
        }
    }

    /// Takes note of how `attempt` went.
    ///
    /// A failure is recorded with the two names and its cause, and the batch
    /// goes on. After a rename to a temporary name that went well, the entry
    /// waits under that name for the second phase.
    pub fn settle(&mut self, attempt: Attempt, outcome: Result<(), std::io::Error>)
        requires
            old(self).wf(),
        ensures
            final(self).wf(),
            match outcome {
                Ok(_) => final(self)@ == old(self)@.settled(attempt@),
                Err(cause) => {
                    &&& final(self)@.failed_after(old(self)@) matches Some(
                        Error::Rename { from, to, source },
                    )
                    &&& from@ == attempt@.from
                    &&& to@ == attempt@.to
                    &&& source == cause
                },
            },
    {
        let ghost before = self@;
        match outcome {
            Ok(_) => {
                if let Some(new_file_name) = attempt.onward {
                    self.deferred.push_back((attempt.to, new_file_name));
                    assert(self@.deferred =~= before.deferred.push((attempt@.to, new_file_name@)));
                }
            },
            Err(source) => {
                self.failures.push(Error::Rename { from: attempt.from, to: attempt.to, source });
                assert(self@.failures.drop_last() =~= before.failures);
            },
        }
    }

    /// How the batch ended: well where nothing failed, and else with all the
    /// failures in the order they came. Nothing that was renamed is put back.
    pub fn finish(self) -> (ended: Result<(), Error>)
        ensures
            ended is Ok <==> self@.failures.len() == 0,
            ended matches Err(e) ==> e matches Error::Group(failures) && failures@
                == self@.failures,
    {
        if self.failures.len() > 0 {
            return Err(Error::Group(self.failures));
        }
        Ok(())
    }

    proof fn lemma_pending_originals(&self, name: Seq<char>)
        requires
            self.wf(),
        ensures
            has_name(self.originals@, name) == is_pending_original(self@.pending, name),
    {
        let pending = self@.pending;
        if has_name(self.originals@, name) {
            let i = choose|i: int| 0 <= i < self.originals@.len() && (#[trigger] self.originals@[i])@
                == name;
            assert(pending[i].0 == name);
        }
        if is_pending_original(pending, name) {
            let i = choose|i: int| 0 <= i < pending.len() && (#[trigger] pending[i]).0 == name;
            assert(self.originals@[i]@ == name);
        }
    }

    proof fn lemma_pending_tmp_names(&self)
        requires
            self.wf(),
        ensures
            has_tmp_name(self.originals@) == has_pending_tmp_name(self@.pending),
    {
        let pending = self@.pending;
        if has_tmp_name(self.originals@) {
            let i = choose|i: int|
                0 <= i < self.originals@.len() && is_tmp_name((#[trigger] self.originals@[i])@);
            assert(is_tmp_name(pending[i].0));
        }
        if has_pending_tmp_name(pending) {
            let i = choose|i: int| 0 <= i < pending.len() && is_tmp_name((#[trigger] pending[i]).0);
            assert(is_tmp_name(self.originals@[i]@));
        }
    }
}

} // verus!
