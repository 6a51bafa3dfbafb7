//! Jobs: "what" is to be executed.

use vstd::prelude::*;

verus! {

/// A job: an identity (`id` within `group`) and the target to execute.
pub struct Job<F> {
    id: String,
    group: String,
    target_fn: F,
}

impl<F> Job<F> {
    /// The job's identity, as characters.
    pub closed spec fn id_view(&self) -> Seq<char> {
        self.id@
    }

    /// The job's group, as characters.
    pub closed spec fn group_view(&self) -> Seq<char> {
        self.group@
    }

    /// The job's target.
    pub closed spec fn target(&self) -> F {
        self.target_fn
    }

    /// Creates a job that will execute `target` and is referenced by `id` and
    /// `group`.
    pub fn with_identity(id: &str, group: &str, target: F) -> (j: Job<F>)
        ensures
            j.id_view() == id@,
            j.group_view() == group@,
            j.target() == target,
    {
        Job { id: id.to_owned(), group: group.to_owned(), target_fn: target }
    }

    /// The job's identity.
    pub fn id(&self) -> (r: &str)
        ensures
            r@ == self.id_view(),
    {
        self.id.as_str()
    }

    /// The job's group.
    pub fn group(&self) -> (r: &str)
        ensures
            r@ == self.group_view(),
    {
        self.group.as_str()
    }

    /// Whether two jobs have the same identity: the same id in the same group.
    /// Their targets are not compared.
    pub fn same_identity<G>(&self, other: &Job<G>) -> (r: bool)
        ensures
            r == (self.id_view() == other.id_view() && self.group_view() == other.group_view()),
    {
        let same_id = self.id == other.id;
        let same_group = self.group == other.group;
        same_id && same_group
    }

    /// A description of the job: `Job <group>::<id>`.
    pub fn describe(&self) -> (r: String)
        ensures
            r@ == "Job "@ + self.group_view() + "::"@ + self.id_view(),
    {
        let r = String::from_str("Job ");
        let r = r.concat(self.group.as_str());
        let r = r.concat("::");
        let r = r.concat(self.id.as_str());
        r
    }

    /// Executes the job's target.
    pub fn execute(&self)
        where F: Fn()
        requires
            self.target().requires(()),
        ensures
            self.target().ensures((), ()),
    {
        (self.target_fn)()
    }
}

} // verus!
