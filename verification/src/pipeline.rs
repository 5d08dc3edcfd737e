//! The top-level pipeline value.

use vstd::prelude::*;
use crate::job::Job;
use crate::model::SpecPipeline;
use crate::model::job_view;
use crate::model::jobs_view;
use crate::model::lemma_jobs_view_push;
use crate::resource::Resource;
use crate::resource::ResourceTypes;

verus! {

/// Display metadata for the pipeline's dashboard page.
pub struct DisplayConfig {
    pub background_image: String,
}

/// The top-level document: jobs plus the resources and resource types they
/// depend on.
pub struct Pipeline {
    pub display: Option<DisplayConfig>,
    pub jobs: Vec<Job>,
    pub resources: Vec<Resource>,
    pub resource_types: Vec<ResourceTypes>,
}

impl Pipeline {
    /// An empty pipeline.
    pub fn new() -> (r: Self)
        ensures
            r@ == (SpecPipeline {
                display: None,
                jobs: Seq::empty(),
                resources: Seq::empty(),
                resource_types: Seq::empty(),
            }),
    {
        let r = Pipeline {
            display: None,
            jobs: Vec::new(),
            resources: Vec::new(),
            resource_types: Vec::new(),
        };
        proof {
            assert(r@.jobs =~= Seq::<crate::model::SpecJob>::empty());
            assert(r@.resources =~= Seq::<crate::model::SpecResource>::empty());
            assert(r@.resource_types =~= Seq::<crate::model::SpecResourceTypes>::empty());
        }
        r
    }

    /// The same pipeline with the given background image.
    pub fn with_background(self, uri: &str) -> (r: Self)
        ensures
            r@ == (SpecPipeline { display: Some(uri@), ..self@ }),
    {
        let mut this = self;
        this.display = Some(DisplayConfig { background_image: uri.to_owned() });
        this
    }

    /// The same pipeline with its resources replaced.
    pub fn with_resources(self, resources: Vec<Resource>) -> (r: Self)
        ensures
            r@ == (SpecPipeline {
                resources: Seq::new(resources@.len(), |i: int| resources@[i].view()),
                ..self@
            }),
    {
        let mut this = self;
        this.resources = resources;
        this
    }

    /// The same pipeline with its resource types replaced.
    pub fn with_resource_types(self, resource_types: Vec<ResourceTypes>) -> (r: Self)
        ensures
            r@ == (SpecPipeline {
                resource_types: Seq::new(resource_types@.len(), |i: int| resource_types@[i].view()),
                ..self@
            }),
    {
        let mut this = self;
        this.resource_types = resource_types;
        this
    }

    /// The same pipeline with `job` appended.
    pub fn append(self, job: Job) -> (r: Self)
        ensures
            r@ == (SpecPipeline { jobs: self@.jobs.push(job@), ..self@ }),
    {
        let ghost old_jobs = self.jobs@;
        let mut this = self;
        this.jobs.push(job);
        proof {
            lemma_jobs_view_push(old_jobs, this.jobs@[old_jobs.len() as int]);
        }
        this
    }

    /// The pipeline's jobs.
    pub fn jobs(&self) -> (r: &[Job])
        ensures
            jobs_view(r@) == self@.jobs,
    {
        self.jobs.as_slice()
    }
}

} // verus!
