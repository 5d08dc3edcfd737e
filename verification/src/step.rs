//! Steps: the units of work in a job's plan.

use vstd::prelude::*;
use crate::get::Get;
use crate::job::Job;
use crate::model::SpecInParallel;
use crate::model::SpecStep;
use crate::model::job_view;
use crate::model::jobs_view;
use crate::model::lemma_jobs_view_pointwise;
use crate::model::lemma_steps_view_pointwise;
use crate::model::step_view;
use crate::model::steps_view;
use crate::put::Put;
use crate::schema::Number;
use crate::task::Task;

verus! {

/// A concurrent group of steps, optionally with a concurrency limit.
pub enum InParallel {
    Steps(Vec<Step>),
    InParallelConfig {
        steps: Vec<Step>,
        limit: Option<Number>,
        fail_fast: bool,
    },
}

/// A step whose failure must not fail the job.
pub struct Try {
    pub try_: Box<Step>,
}

/// One unit of work in a job's plan.
pub enum Step {
    Get(Get),
    Put(Put),
    Task(Task),
    InParallel(InParallel),
    Try(Try),
}

impl Step {
    /// Wraps a step so that its failure does not fail the job.
    pub fn try_(step: Step) -> (r: Self)
        ensures
            r@ == SpecStep::Try(Box::new(step@)),
    {
        Step::Try(Try { try_: Box::new(step) })
    }
}

impl Clone for Step {
    /// A clone has the same view.
    fn clone(&self) -> (r: Self)
        ensures
            r@ == self@,
        decreases *self,
    {
        match self {
            Step::Get(g) => Step::Get(g.clone()),
            Step::Put(p) => Step::Put(p.clone()),
            Step::Task(t) => Step::Task(t.clone()),
            Step::InParallel(ip) => Step::InParallel(ip.clone()),
            Step::Try(t) => Step::Try(Try { try_: Box::new((*t.try_).clone()) }),
        }
    }
}

impl Clone for InParallel {
    /// A clone has the same view.
    fn clone(&self) -> (r: Self)
        ensures
            crate::model::in_parallel_view(r) == crate::model::in_parallel_view(*self),
        decreases *self,
    {
        match self {
            InParallel::Steps(steps) => InParallel::Steps(clone_steps(steps)),
            InParallel::InParallelConfig { steps, limit, fail_fast } => InParallel::InParallelConfig {
                steps: clone_steps(steps),
                limit: match limit {
                    Some(n) => Some(*n),
                    None => None,
                },
                fail_fast: *fail_fast,
            },
        }
    }
}

/// Rebuilds a vector of steps; the result has the same view.
pub(crate) fn clone_steps(v: &Vec<Step>) -> (r: Vec<Step>)
    ensures
        steps_view(r@) == steps_view(v@),
        r@.len() == v@.len(),
    decreases *v,
{
    let mut r: Vec<Step> = Vec::new();
    let mut i: usize = 0;
    while i < v.len()
        invariant
            i <= v@.len(),
            r@.len() == i as int,
            forall|m: int| 0 <= m < i ==> step_view(#[trigger] r@[m]) == step_view(v@[m]),
        decreases v@.len() - i,
    {
        let s = v[i].clone();
        r.push(s);
        i = i + 1;
    }
    proof {
        lemma_steps_view_pointwise(r@, v@);
    }
    r
}

/// Rebuilds a vector of jobs; the result has the same view.
pub(crate) fn clone_jobs(v: &Vec<Job>) -> (r: Vec<Job>)
    ensures
        jobs_view(r@) == jobs_view(v@),
        r@.len() == v@.len(),
    decreases *v,
{
    let mut r: Vec<Job> = Vec::new();
    let mut i: usize = 0;
    while i < v.len()
        invariant
            i <= v@.len(),
            r@.len() == i as int,
            forall|m: int| 0 <= m < i ==> job_view(#[trigger] r@[m]) == job_view(v@[m]),
        decreases v@.len() - i,
    {
        let j = v[i].clone();
        r.push(j);
        i = i + 1;
    }
    proof {
        lemma_jobs_view_pointwise(r@, v@);
    }
    r
}

/// Copies a slice of jobs into a vector; the result has the same view.
pub(crate) fn clone_jobs_slice(v: &[Job]) -> (r: Vec<Job>)
    ensures
        jobs_view(r@) == jobs_view(v@),
        r@.len() == v@.len(),
{
    let mut r: Vec<Job> = Vec::new();
    let mut i: usize = 0;
    while i < v.len()
        invariant
            i <= v@.len(),
            r@.len() == i as int,
            forall|m: int| 0 <= m < i ==> job_view(#[trigger] r@[m]) == job_view(v@[m]),
        decreases v@.len() - i,
    {
        let j = vstd::slice::slice_index_get(v, i).clone();
        r.push(j);
        i = i + 1;
    }
    proof {
        lemma_jobs_view_pointwise(r@, v@);
    }
    r
}

/// Copies a slice of steps into a vector; the result has the same view.
pub(crate) fn clone_steps_slice(v: &[Step]) -> (r: Vec<Step>)
    ensures
        steps_view(r@) == steps_view(v@),
        r@.len() == v@.len(),
{
    let mut r: Vec<Step> = Vec::new();
    let mut i: usize = 0;
    while i < v.len()
        invariant
            i <= v@.len(),
            r@.len() == i as int,
            forall|m: int| 0 <= m < i ==> step_view(#[trigger] r@[m]) == step_view(v@[m]),
        decreases v@.len() - i,
    {
        let s = vstd::slice::slice_index_get(v, i).clone();
        r.push(s);
        i = i + 1;
    }
    proof {
        lemma_steps_view_pointwise(r@, v@);
    }
    r
}

} // verus!
