//! The publish step.

use vstd::prelude::*;
use crate::model::SpecPut;
use crate::model::SpecStep;
use crate::resource::Resource;
use crate::schema::Config;
use crate::schema::Identifier;
use crate::schema::SpecEntry;
use crate::schema::spec_insert_entries;
use crate::step::Step;

verus! {

/// A step that publishes to a resource, optionally under an alias.
pub struct Put {
    pub put: Identifier,
    pub resource: Resource,
    pub params: Config,
}

impl Clone for Put {
    /// A clone has the same view.
    fn clone(&self) -> (r: Self)
        ensures
            r@ == self@,
    {
        Put {
            put: self.put.clone(),
            resource: self.resource.clone(),
            params: self.params.clone(),
        }
    }
}

impl Put {
    /// A publish to `resource` under the alias `identifier` (empty: no
    /// alias), with no params.
    pub(crate) fn from(identifier: &str, resource: &Resource) -> (r: Self)
        ensures
            r@ == (SpecPut {
                put: identifier@,
                resource: resource@,
                params: Seq::<SpecEntry>::empty(),
            }),
    {
        Put {
            put: identifier.to_owned(),
            resource: resource.clone(),
            params: Config::new(),
        }
    }

    /// The same publish with its params replaced by the given pairs.
    pub fn with_params(&self, params: &[(&str, &str)]) -> (r: Self)
        ensures
            r@ == (SpecPut {
                params: spec_insert_entries(Seq::empty(), params.deep_view()),
                ..self@
            }),
    {
        let mut cfg = Config::new();
        cfg.insert_all(params);
        let mut this = self.clone();
        this.params = cfg;
        this
    }

    /// This publish as a step.
    pub fn put(self) -> (r: Step)
        ensures
            r@ == SpecStep::Put(self@),
    {
        Step::Put(self)
    }

    /// This publish as a step, under the given alias.
    pub fn put_as(self, name: &str) -> (r: Step)
        ensures
            r@ == SpecStep::Put(SpecPut { put: name@, ..self@ }),
    {
        let mut this = self;
        this.put = name.to_owned();
        Step::Put(this)
    }
}

} // verus!
