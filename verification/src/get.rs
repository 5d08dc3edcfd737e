//! The fetch step.

use vstd::prelude::*;
use crate::job::Job;
use crate::model::SpecGet;
use crate::model::SpecStep;
use crate::model::get_view;
use crate::model::jobs_view;
use crate::model::view_opt;
use crate::resource::Resource;
use crate::schema::Identifier;
use crate::schema::Version;
use crate::step::Step;
use crate::step::clone_jobs_slice;

verus! {

/// A step that fetches a resource, optionally under an alias.
pub struct Get {
    pub get: Identifier,
    pub resource: Resource,
    pub version: Option<Version>,
    pub trigger: bool,
    pub passed: Option<Vec<Job>>,
}

impl Clone for Get {
    /// A clone has the same view.
    fn clone(&self) -> (r: Self)
        ensures
            r@ == self@,
        decreases *self,
    {
        Get {
            get: self.get.clone(),
            resource: self.resource.clone(),
            version: match &self.version {
                Some(v) => Some(v.clone()),
                None => None,
            },
            trigger: self.trigger,
            passed: match &self.passed {
                Some(js) => Some(crate::step::clone_jobs(js)),
                None => None,
            },
        }
    }
}

impl Get {
    /// A fetch of `resource` under the alias `identifier` (empty: no alias),
    /// triggering by default exactly when the resource does.
    pub(crate) fn from(identifier: &str, resource: &Resource, version: Option<Version>) -> (r: Self)
        ensures
            r@ == (SpecGet {
                get: identifier@,
                resource: resource@,
                version: view_opt(version),
                trigger: resource@.trigger,
                passed: None,
            }),
    {
        let trigger = resource.trigger();
        Get {
            get: identifier.to_owned(),
            resource: resource.clone(),
            version,
            trigger,
            passed: None,
        }
    }

    /// The same fetch pinned to the given version.
    pub fn with_version(self, version: Version) -> (r: Self)
        ensures
            r@ == (SpecGet { version: Some(version@), ..self@ }),
    {
        let mut this = self;
        this.version = Some(version);
        this
    }

    /// The same fetch with the trigger flag set as given.
    pub fn with_trigger(self, trigger: bool) -> (r: Self)
        ensures
            r@ == (SpecGet { trigger, ..self@ }),
    {
        let mut this = self;
        this.trigger = trigger;
        this
    }

    /// The same fetch gated on the given upstream jobs.
    pub fn with_passed(self, jobs: &[Job]) -> (r: Self)
        ensures
            r@ == (SpecGet { passed: Some(jobs_view(jobs@)), ..self@ }),
    {
        let mut this = self;
        this.passed = Some(clone_jobs_slice(jobs));
        this
    }

    /// This fetch as a step.
    pub fn get(self) -> (r: Step)
        ensures
            r@ == SpecStep::Get(self@),
    {
        Step::Get(self)
    }

    /// This fetch as a step, under the given alias.
    pub fn get_as(self, alias: &str) -> (r: Step)
        ensures
            r@ == SpecStep::Get(SpecGet { get: alias@, ..self@ }),
    {
        let mut this = self;
        this.get = alias.to_owned();
        proof {
            assert(get_view(this) == (SpecGet { get: alias@, ..get_view(self) }));
        }
        Step::Get(this)
    }
}

} // verus!
