//! Jobs: named, ordered sequences of steps with hooks.

use vstd::prelude::*;
use crate::errors::Errors;
use crate::model::SpecJob;
use crate::model::SpecJobKind;
use crate::model::job_hook_view;
use crate::model::job_view;
use crate::model::lemma_steps_view_push;
use crate::model::step_view;
use crate::model::steps_view;
use crate::model::view_opt;
use crate::schema::Identifier;
use crate::step::InParallel;
use crate::step::Step;
use crate::step::Try;
use crate::step::clone_steps;
use crate::step::clone_steps_slice;

verus! {

/// Whether a job value was created bound to a name.
pub enum JobKind {
    Unbound,
    Initialized,
}

/// A named, ordered sequence of steps (a plan), with failure and success
/// hooks.
pub struct Job {
    pub kind: JobKind,
    pub name: Identifier,
    pub public: Option<bool>,
    pub serial: Option<bool>,
    pub plan: Vec<Step>,
    pub on_failure: Option<Step>,
    pub on_error: Option<Step>,
    pub on_abort: Option<Step>,
    pub on_success: Option<Step>,
    pub ensure: Option<Step>,
}

impl Clone for Job {
    /// A clone has the same view.
    fn clone(&self) -> (r: Self)
        ensures
            r@ == self@,
        decreases *self,
    {
        Job {
            kind: match self.kind {
                JobKind::Unbound => JobKind::Unbound,
                JobKind::Initialized => JobKind::Initialized,
            },
            name: self.name.clone(),
            public: self.public,
            serial: self.serial,
            plan: clone_steps(&self.plan),
            on_failure: clone_hook(&self.on_failure),
            on_error: clone_hook(&self.on_error),
            on_abort: clone_hook(&self.on_abort),
            on_success: clone_hook(&self.on_success),
            ensure: clone_hook(&self.ensure),
        }
    }
}

/// Rebuilds an optional hook step; the result has the same view.
pub(crate) fn clone_hook(o: &Option<Step>) -> (r: Option<Step>)
    ensures
        job_hook_view(r) == job_hook_view(*o),
    decreases *o,
{
    match o {
        Some(s) => Some(s.clone()),
        None => None,
    }
}

impl Job {
    /// A job that is not yet bound to a name.
    pub fn unbound() -> (r: Self)
        ensures
            r@ == (SpecJob { kind: SpecJobKind::Unbound, ..Self::empty_spec(""@) }),
    {
        let mut this = Self::new("");
        this.kind = JobKind::Unbound;
        this
    }

    /// The view of a fresh job with the given name and nothing else.
    pub open spec fn empty_spec(name: Seq<char>) -> SpecJob {
        SpecJob {
            kind: SpecJobKind::Initialized,
            name,
            public: None,
            serial: None,
            plan: Seq::empty(),
            on_failure: None,
            on_error: None,
            on_abort: None,
            on_success: None,
            ensure: None,
        }
    }

    /// A fresh job with the given name, an empty plan and no hooks.
    pub fn new(name: &str) -> (r: Self)
        ensures
            r@ == Self::empty_spec(name@),
    {
        let r = Job {
            kind: JobKind::Initialized,
            name: name.to_owned(),
            public: None,
            serial: None,
            plan: Vec::new(),
            on_failure: None,
            on_error: None,
            on_abort: None,
            on_success: None,
            ensure: None,
        };
        proof {
            assert(steps_view(r.plan@) =~= Seq::<crate::model::SpecStep>::empty());
        }
        r
    }

    /// A fresh job with at least one of the failure hooks set.
    pub fn new_fallible(
        name: &str,
        on_failure: Option<Step>,
        on_error: Option<Step>,
        on_abort: Option<Step>,
    ) -> (r: Result<Self, Errors>)
        ensures
            r is Err <==> on_failure is None && on_error is None && on_abort is None,
            r matches Err(e) ==> e matches Errors::CookError(m) && m@
                == "One of on_failure, on_error, on_abort hooks must be specified in fallible jobs."@,
            r matches Ok(j) ==> j@ == (SpecJob {
                on_failure: job_hook_view(on_failure),
                on_error: job_hook_view(on_error),
                on_abort: job_hook_view(on_abort),
                ..Self::empty_spec(name@)
            }),
    {
        Self::new(name).fallible(on_failure, on_error, on_abort)
    }

    /// The job's name.
    pub fn name(&self) -> (r: String)
        ensures
            r@ == self@.name,
    {
        self.name.clone()
    }

    /// The same job with its public flag set as given.
    pub fn with_public(self, is_public: bool) -> (r: Self)
        ensures
            r@ == (SpecJob { public: Some(is_public), ..self@ }),
    {
        let mut this = self;
        this.public = Some(is_public);
        this
    }

    /// The same job with its serial flag set as given.
    pub fn with_serial(self, is_serial: bool) -> (r: Self)
        ensures
            r@ == (SpecJob { serial: Some(is_serial), ..self@ }),
    {
        let mut this = self;
        this.serial = Some(is_serial);
        this
    }

    /// The same job with `step` appended to its plan.
    pub fn then(self, step: Step) -> (r: Self)
        ensures
            r@ == (SpecJob { plan: self@.plan.push(step@), ..self@ }),
    {
        let ghost old_plan = self.plan@;
        let mut this = self;
        this.plan.push(step);
        proof {
            lemma_steps_view_push(old_plan, this.plan@[old_plan.len() as int]);
        }
        this
    }

    /// The same job with `step` appended to its plan, wrapped so that its
    /// failure does not fail the job.
    pub fn try_(self, step: Step) -> (r: Self)
        ensures
            r@ == (SpecJob {
                plan: self@.plan.push(crate::model::SpecStep::Try(Box::new(step@))),
                ..self@
            }),
    {
        let ghost old_plan = self.plan@;
        let mut this = self;
        this.plan.push(Step::Try(Try { try_: Box::new(step) }));
        proof {
            lemma_steps_view_push(old_plan, this.plan@[old_plan.len() as int]);
        }
        this
    }

    /// The same job with a concurrent group of the given steps appended to
    /// its plan.
    pub fn parallel(self, steps: &[Step]) -> (r: Self)
        ensures
            r@ == (SpecJob {
                plan: self@.plan.push(crate::model::SpecStep::InParallel(
                    crate::model::SpecInParallel::Steps(steps_view(steps@)),
                )),
                ..self@
            }),
    {
        let ghost old_plan = self.plan@;
        let cloned = clone_steps_slice(steps);
        let ghost cv = cloned@;
        proof {
            assert(steps_view(cv) == steps_view(steps@));
        }
        let group = Step::InParallel(InParallel::Steps(cloned));
        proof {
            assert(step_view(group) == crate::model::SpecStep::InParallel(
                crate::model::in_parallel_view(InParallel::Steps(cloned)),
            ));
            assert(crate::model::in_parallel_view(InParallel::Steps(cloned))
                == crate::model::SpecInParallel::Steps(steps_view(cv)));
            assert(step_view(group) == crate::model::SpecStep::InParallel(
                crate::model::SpecInParallel::Steps(steps_view(steps@)),
            ));
        }
        let mut this = self;
        this.plan.push(group);
        proof {
            lemma_steps_view_push(old_plan, this.plan@[old_plan.len() as int]);
        }
        this
    }

    /// The same job with the given failure hook.
    pub fn on_failure(self, step: Step) -> (r: Self)
        ensures
            r@ == (SpecJob { on_failure: Some(Box::new(step@)), ..self@ }),
    {
        let mut this = self;
        this.on_failure = Some(step);
        this
    }

    /// The same job with the given error hook.
    pub fn on_error(self, step: Step) -> (r: Self)
        ensures
            r@ == (SpecJob { on_error: Some(Box::new(step@)), ..self@ }),
    {
        let mut this = self;
        this.on_error = Some(step);
        this
    }

    /// The same job with the given abort hook.
    pub fn on_abort(self, step: Step) -> (r: Self)
        ensures
            r@ == (SpecJob { on_abort: Some(Box::new(step@)), ..self@ }),
    {
        let mut this = self;
        this.on_abort = Some(step);
        this
    }

    /// The same job with the given success hook.
    pub fn on_success(self, step: Step) -> (r: Self)
        ensures
            r@ == (SpecJob { on_success: Some(Box::new(step@)), ..self@ }),
    {
        let mut this = self;
        this.on_success = Some(step);
        this
    }

    /// The same job with the given failure hooks; at least one of them must
    /// be given, else the job could not report its failure anywhere.
    pub fn fallible(
        self,
        on_failure: Option<Step>,
        on_error: Option<Step>,
        on_abort: Option<Step>,
    ) -> (r: Result<Self, Errors>)
        ensures
            r is Err <==> on_failure is None && on_error is None && on_abort is None,
            r matches Err(e) ==> e matches Errors::CookError(m) && m@
                == "One of on_failure, on_error, on_abort hooks must be specified in fallible jobs."@,
            r matches Ok(j) ==> j@ == (SpecJob {
                on_failure: job_hook_view(on_failure),
                on_error: job_hook_view(on_error),
                on_abort: job_hook_view(on_abort),
                ..self@
            }),
    {
        if on_failure.is_none() && on_error.is_none() && on_abort.is_none() {
            return Err(Errors::from(
                "One of on_failure, on_error, on_abort hooks must be specified in fallible jobs.",
            ));
        }
        let mut this = self;
        this.on_failure = on_failure;
        this.on_error = on_error;
        this.on_abort = on_abort;
        Ok(this)
    }

    /// The same job with the given cleanup hook, run whatever the outcome.
    pub fn ensure(self, ensure: Step) -> (r: Self)
        ensures
            r@ == (SpecJob { ensure: Some(Box::new(ensure@)), ..self@ }),
    {
        let mut this = self;
        this.ensure = Some(ensure);
        this
    }

    /// The job's plan.
    pub fn plan(&self) -> (r: &[Step])
        ensures
            steps_view(r@) == self@.plan,
    {
        self.plan.as_slice()
    }

    /// Stores a copy of this job in `var` and hands the job back: the
    /// two-phase protocol that resolves a forward reference.
    pub fn bind(self, var: &mut Self) -> (r: Self)
        ensures
            final(var)@ == self@,
            r@ == self@,
    {
        *var = self.clone();
        self
    }
}

} // verus!
