//! The in-memory list of submissions, used when no database is configured.

use vstd::prelude::*;
use crate::model::Submission;

verus! {

/// The submissions created while the service runs, oldest first.
#[derive(Clone, Debug)]
pub struct SubmissionStore {
    items: Vec<Submission>,
}

impl View for SubmissionStore {
    type V = Seq<Submission>;

    closed spec fn view(&self) -> Seq<Submission> {
        self.items@
    }
}

impl SubmissionStore {
    /// A store without submissions.
    pub fn new() -> (r: Self)
        ensures
            r@ == Seq::<Submission>::empty(),
    {
        SubmissionStore { items: Vec::new() }
    }

    /// Adds a submission after the others.
    pub fn push(&mut self, s: Submission)
        ensures
            final(self)@ == old(self)@.push(s),
    {
        self.items.push(s);
    }

    /// The submissions, oldest first.
    pub fn items(&self) -> (r: &Vec<Submission>)
        ensures
            r@ == self@,
    {
        &self.items
    }
}

} // verus!
