//! The mathematical model of the entity types.
//!
//! Every executable type of the library has a ghost counterpart built from
//! `Seq`, `Option` and `bool`; contracts are stated over these views. The view
//! functions for the step tree are mutually recursive, mirroring the tree.

use vstd::prelude::*;
use crate::schema::SpecEntry;
use crate::schema::SpecVersion;
use crate::resource::AnonymousResource;
use crate::resource::Resource;
use crate::resource::ResourceTypes;
use crate::resource::TaskImageResource;
use crate::get::Get;
use crate::put::Put;
use crate::job::Job;
use crate::job::JobKind;
use crate::pipeline::Pipeline;
use crate::step::InParallel;
use crate::step::Step;
use crate::task::Command;
use crate::task::Input;
use crate::task::Output;
use crate::task::Platform;
use crate::task::Task;
use crate::task::TaskConfig;
use crate::task::TaskDef;
use crate::task::TaskResource;

verus! {

/// The view of an `Option`, element by element.
pub open spec fn view_opt<T: View>(o: Option<T>) -> Option<T::V> {
    match o {
        Some(x) => Some(x@),
        None => None,
    }
}

/// A resource type: a fixed built-in kind, or a custom type with a base.
pub ghost enum SpecResourceTypes {
    DockerImage,
    Git,
    RegistryImage,
    Time,
    Custom { name: Seq<char>, base: Box<SpecResourceTypes>, source: Seq<SpecEntry>, params: Seq<SpecEntry> },
}

impl SpecResourceTypes {
    /// The rendered name of the type.
    pub open spec fn rendered_name(self) -> Seq<char> {
        match self {
            SpecResourceTypes::Git => "git"@,
            SpecResourceTypes::RegistryImage => "registry-image"@,
            SpecResourceTypes::DockerImage => "docker-image"@,
            SpecResourceTypes::Time => "time"@,
            SpecResourceTypes::Custom { name, .. } => name,
        }
    }
}

/// A named, typed external artifact.
pub ghost struct SpecResource {
    pub name: Seq<char>,
    pub icon: Option<Seq<char>>,
    pub typ: SpecResourceTypes,
    pub source: Seq<SpecEntry>,
    pub trigger: bool,
    pub version: Option<SpecVersion>,
}

/// An inline image resource as rendered inside a task configuration.
pub ghost struct SpecAnonymousResource {
    pub typ: Seq<char>,
    pub source: Seq<SpecEntry>,
    pub params: Option<Seq<SpecEntry>>,
    pub version: Option<SpecVersion>,
}

/// The platform a task runs on.
pub ghost enum SpecPlatform {
    Linux,
    Darwin,
    Windows,
}

/// A command run by a task.
pub ghost struct SpecCommand {
    pub path: Seq<char>,
    pub args: Option<Seq<Seq<char>>>,
}

/// A declared input of a task configuration.
pub ghost struct SpecInput {
    pub name: Seq<char>,
    pub path: Option<Seq<char>>,
    pub optional: bool,
}

/// A declared output of a task configuration.
pub ghost struct SpecOutput {
    pub name: Seq<char>,
    pub path: Option<Seq<char>>,
}

/// An inline task configuration.
pub ghost struct SpecTaskConfig {
    pub platform: SpecPlatform,
    pub image_resource: SpecResource,
    pub run: SpecCommand,
    pub params: Option<Seq<SpecEntry>>,
    pub inputs: Option<Seq<SpecInput>>,
    pub outputs: Option<Seq<SpecOutput>>,
}

/// Where a task's definition lives: an external file or an inline config.
pub ghost enum SpecTaskDef {
    File { file: Seq<char> },
    Config { config: SpecTaskConfig },
}

/// A binding handle wiring a resource or an earlier output into a task.
pub ghost enum SpecTaskResource {
    Unbound,
    Resource { resource: SpecResource, get_as: Option<Seq<char>>, map_to: Option<Seq<char>> },
    Output { name: Seq<char>, map_to: Option<Seq<char>>, map_from: Option<Seq<char>> },
}

/// A fetch step.
pub ghost struct SpecGet {
    pub get: Seq<char>,
    pub resource: SpecResource,
    pub version: Option<SpecVersion>,
    pub trigger: bool,
    pub passed: Option<Seq<SpecJob>>,
}

/// A publish step.
pub ghost struct SpecPut {
    pub put: Seq<char>,
    pub resource: SpecResource,
    pub params: Seq<SpecEntry>,
}

/// A unit of executable work.
pub ghost struct SpecTask {
    pub task: Seq<char>,
    pub task_def: SpecTaskDef,
    pub image: Option<SpecResource>,
    pub priviledged: bool,
    pub params: Option<Seq<SpecEntry>>,
    pub input_mapping: Option<Seq<SpecEntry>>,
    pub output_mapping: Option<Seq<SpecEntry>>,
    pub inputs: Option<Seq<SpecTaskResource>>,
    pub outputs: Option<Seq<SpecTaskResource>>,
    pub on_failure: Option<Box<SpecStep>>,
    pub on_abort: Option<Box<SpecStep>>,
    pub on_success: Option<Box<SpecStep>>,
}

/// A concurrent group of steps.
pub ghost enum SpecInParallel {
    Steps(Seq<SpecStep>),
    InParallelConfig { steps: Seq<SpecStep>, limit: Option<i64>, fail_fast: bool },
}

/// One unit of work in a job's plan.
pub ghost enum SpecStep {
    Get(SpecGet),
    Put(SpecPut),
    Task(SpecTask),
    InParallel(SpecInParallel),
    Try(Box<SpecStep>),
}

/// Whether a job value was created bound to a name.
pub ghost enum SpecJobKind {
    Unbound,
    Initialized,
}

/// A named, ordered sequence of steps with hooks.
pub ghost struct SpecJob {
    pub kind: SpecJobKind,
    pub name: Seq<char>,
    pub public: Option<bool>,
    pub serial: Option<bool>,
    pub plan: Seq<SpecStep>,
    pub on_failure: Option<Box<SpecStep>>,
    pub on_error: Option<Box<SpecStep>>,
    pub on_abort: Option<Box<SpecStep>>,
    pub on_success: Option<Box<SpecStep>>,
    pub ensure: Option<Box<SpecStep>>,
}

/// The top-level document: jobs plus the resources they depend on.
pub ghost struct SpecPipeline {
    pub display: Option<Seq<char>>,
    pub jobs: Seq<SpecJob>,
    pub resources: Seq<SpecResource>,
    pub resource_types: Seq<SpecResourceTypes>,
}

/// The view of a resource type, following the chain of custom bases.
pub open spec fn resource_types_view(rt: ResourceTypes) -> SpecResourceTypes
    decreases rt,
{
    match rt {
        ResourceTypes::DockerImage => SpecResourceTypes::DockerImage,
        ResourceTypes::Git => SpecResourceTypes::Git,
        ResourceTypes::RegistryImage => SpecResourceTypes::RegistryImage,
        ResourceTypes::Time => SpecResourceTypes::Time,
        ResourceTypes::Custom { name, type_, source, params } => SpecResourceTypes::Custom {
            name: name@,
            base: Box::new(resource_types_view(*type_)),
            source: source@,
            params: params@,
        },
    }
}

impl View for ResourceTypes {
    type V = SpecResourceTypes;

    open spec fn view(&self) -> SpecResourceTypes {
        resource_types_view(*self)
    }
}

impl View for Resource {
    type V = SpecResource;

    open spec fn view(&self) -> SpecResource {
        SpecResource {
            name: self.name@,
            icon: view_opt(self.icon),
            typ: self.type_@,
            source: self.source@,
            trigger: self.trigger,
            version: view_opt(self.version),
        }
    }
}

impl View for AnonymousResource {
    type V = SpecAnonymousResource;

    open spec fn view(&self) -> SpecAnonymousResource {
        SpecAnonymousResource {
            typ: self.type_@,
            source: self.source@,
            params: view_opt(self.params),
            version: view_opt(self.version),
        }
    }
}

impl View for TaskImageResource {
    type V = SpecResource;

    open spec fn view(&self) -> SpecResource {
        self.resource@
    }
}

impl View for Platform {
    type V = SpecPlatform;

    open spec fn view(&self) -> SpecPlatform {
        match self {
            Platform::Linux => SpecPlatform::Linux,
            Platform::Darwin => SpecPlatform::Darwin,
            Platform::Windows => SpecPlatform::Windows,
        }
    }
}

impl View for Command {
    type V = SpecCommand;

    open spec fn view(&self) -> SpecCommand {
        SpecCommand {
            path: self.path@,
            args: match self.args {
                Some(v) => Some(Seq::new(v@.len(), |i: int| v@[i].view())),
                None => None,
            },
        }
    }
}

impl View for Input {
    type V = SpecInput;

    open spec fn view(&self) -> SpecInput {
        SpecInput { name: self.name@, path: view_opt(self.path), optional: self.optional }
    }
}

impl View for Output {
    type V = SpecOutput;

    open spec fn view(&self) -> SpecOutput {
        SpecOutput { name: self.name@, path: view_opt(self.path) }
    }
}

/// The view of a sequence of declared inputs.
pub open spec fn inputs_view(v: Seq<Input>) -> Seq<SpecInput> {
    Seq::new(v.len(), |i: int| v[i].view())
}

/// The view of a sequence of declared outputs.
pub open spec fn outputs_view(v: Seq<Output>) -> Seq<SpecOutput> {
    Seq::new(v.len(), |i: int| v[i].view())
}

impl View for TaskConfig {
    type V = SpecTaskConfig;

    open spec fn view(&self) -> SpecTaskConfig {
        SpecTaskConfig {
            platform: self.platform@,
            image_resource: self.image_resource@,
            run: self.run@,
            params: view_opt(self.params),
            inputs: match self.inputs {
                Some(v) => Some(inputs_view(v@)),
                None => None,
            },
            outputs: match self.outputs {
                Some(v) => Some(outputs_view(v@)),
                None => None,
            },
        }
    }
}

impl View for TaskResource {
    type V = SpecTaskResource;

    open spec fn view(&self) -> SpecTaskResource {
        match self {
            TaskResource::Unbound => SpecTaskResource::Unbound,
            TaskResource::Resource { resource, get_as, map_to } => SpecTaskResource::Resource {
                resource: resource@,
                get_as: view_opt(*get_as),
                map_to: view_opt(*map_to),
            },
            TaskResource::Output { name, map_to, map_from } => SpecTaskResource::Output {
                name: name@,
                map_to: view_opt(*map_to),
                map_from: view_opt(*map_from),
            },
        }
    }
}

/// The view of a sequence of task resource bindings.
pub open spec fn task_resources_view(v: Seq<TaskResource>) -> Seq<SpecTaskResource> {
    Seq::new(v.len(), |i: int| v[i].view())
}

/// The view of one step.
pub open spec fn step_view(s: Step) -> SpecStep
    decreases s,
{
    match s {
        Step::Get(g) => SpecStep::Get(get_view(g)),
        Step::Put(p) => SpecStep::Put(put_view(p)),
        Step::Task(t) => SpecStep::Task(task_view(t)),
        Step::InParallel(ip) => SpecStep::InParallel(in_parallel_view(ip)),
        Step::Try(t) => SpecStep::Try(Box::new(step_view(*t.try_))),
    }
}

/// The view of a concurrent group.
pub open spec fn in_parallel_view(ip: InParallel) -> SpecInParallel
    decreases ip,
{
    match ip {
        InParallel::Steps(steps) => SpecInParallel::Steps(steps_view(steps@)),
        InParallel::InParallelConfig { steps, limit, fail_fast } => SpecInParallel::InParallelConfig {
            steps: steps_view(steps@),
            limit,
            fail_fast,
        },
    }
}

/// The view of a sequence of steps, element by element.
pub open spec fn steps_view(v: Seq<Step>) -> Seq<SpecStep>
    decreases v,
{
    if v.len() == 0 {
        Seq::empty()
    } else {
        seq![step_view(v[0])] + steps_view(v.drop_first())
    }
}

/// The view of an optional hook step.
pub open spec fn hook_view(o: Option<Box<Step>>) -> Option<Box<SpecStep>>
    decreases o,
{
    match o {
        Some(s) => Some(Box::new(step_view(*s))),
        None => None,
    }
}

/// The view of a fetch step.
pub open spec fn get_view(g: Get) -> SpecGet
    decreases g,
{
    SpecGet {
        get: g.get@,
        resource: g.resource@,
        version: view_opt(g.version),
        trigger: g.trigger,
        passed: match g.passed {
            Some(js) => Some(jobs_view(js@)),
            None => None,
        },
    }
}

/// The view of a publish step.
pub open spec fn put_view(p: Put) -> SpecPut {
    SpecPut { put: p.put@, resource: p.resource@, params: p.params@ }
}

/// The view of a task.
pub open spec fn task_view(t: Task) -> SpecTask
    decreases t,
{
    SpecTask {
        task: t.task@,
        task_def: match t.task_def {
            TaskDef::File { file } => SpecTaskDef::File { file: file@ },
            TaskDef::Config { config } => SpecTaskDef::Config { config: config@ },
        },
        image: view_opt(t.image),
        priviledged: t.priviledged,
        params: view_opt(t.params),
        input_mapping: view_opt(t.input_mapping),
        output_mapping: view_opt(t.output_mapping),
        inputs: match t.inputs {
            Some(v) => Some(task_resources_view(v@)),
            None => None,
        },
        outputs: match t.outputs {
            Some(v) => Some(task_resources_view(v@)),
            None => None,
        },
        on_failure: hook_view(t.on_failure),
        on_abort: hook_view(t.on_abort),
        on_success: hook_view(t.on_success),
    }
}

/// The view of an optional job-level hook step.
pub open spec fn job_hook_view(o: Option<Step>) -> Option<Box<SpecStep>>
    decreases o,
{
    match o {
        Some(s) => Some(Box::new(step_view(s))),
        None => None,
    }
}

/// The view of a job.
pub open spec fn job_view(j: Job) -> SpecJob
    decreases j,
{
    SpecJob {
        kind: match j.kind {
            JobKind::Unbound => SpecJobKind::Unbound,
            JobKind::Initialized => SpecJobKind::Initialized,
        },
        name: j.name@,
        public: j.public,
        serial: j.serial,
        plan: steps_view(j.plan@),
        on_failure: job_hook_view(j.on_failure),
        on_error: job_hook_view(j.on_error),
        on_abort: job_hook_view(j.on_abort),
        on_success: job_hook_view(j.on_success),
        ensure: job_hook_view(j.ensure),
    }
}

/// The view of a sequence of jobs, element by element.
pub open spec fn jobs_view(v: Seq<Job>) -> Seq<SpecJob>
    decreases v,
{
    if v.len() == 0 {
        Seq::empty()
    } else {
        seq![job_view(v[0])] + jobs_view(v.drop_first())
    }
}

impl View for Step {
    type V = SpecStep;

    open spec fn view(&self) -> SpecStep {
        step_view(*self)
    }
}

impl View for Job {
    type V = SpecJob;

    open spec fn view(&self) -> SpecJob {
        job_view(*self)
    }
}

impl View for Get {
    type V = SpecGet;

    open spec fn view(&self) -> SpecGet {
        get_view(*self)
    }
}

impl View for Put {
    type V = SpecPut;

    open spec fn view(&self) -> SpecPut {
        put_view(*self)
    }
}

impl View for Task {
    type V = SpecTask;

    open spec fn view(&self) -> SpecTask {
        task_view(*self)
    }
}

impl View for Pipeline {
    type V = SpecPipeline;

    open spec fn view(&self) -> SpecPipeline {
        SpecPipeline {
            display: match self.display {
                Some(d) => Some(d.background_image@),
                None => None,
            },
            jobs: jobs_view(self.jobs@),
            resources: Seq::new(self.resources@.len(), |i: int| self.resources@[i].view()),
            resource_types: Seq::new(self.resource_types@.len(), |i: int| self.resource_types@[i].view()),
        }
    }
}

/// `steps_view` is the element-by-element map of `step_view`.
pub proof fn lemma_steps_view_len(v: Seq<Step>)
    ensures
        steps_view(v).len() == v.len(),
        forall|i: int| 0 <= i < v.len() ==> steps_view(v)[i] == step_view(#[trigger] v[i]),
    decreases v,
{
    if v.len() > 0 {
        lemma_steps_view_len(v.drop_first());
        assert(forall|i: int| 1 <= i < v.len() ==> #[trigger] v[i] == v.drop_first()[i - 1]);
    }
}

/// `jobs_view` is the element-by-element map of `job_view`.
pub proof fn lemma_jobs_view_len(v: Seq<Job>)
    ensures
        jobs_view(v).len() == v.len(),
        forall|i: int| 0 <= i < v.len() ==> jobs_view(v)[i] == job_view(#[trigger] v[i]),
    decreases v,
{
    if v.len() > 0 {
        lemma_jobs_view_len(v.drop_first());
        assert(forall|i: int| 1 <= i < v.len() ==> #[trigger] v[i] == v.drop_first()[i - 1]);
    }
}

/// Two step sequences with pointwise equal views have equal views.
pub proof fn lemma_steps_view_pointwise(a: Seq<Step>, b: Seq<Step>)
    requires
        a.len() == b.len(),
        forall|i: int| 0 <= i < a.len() ==> step_view(#[trigger] a[i]) == step_view(#[trigger] b[i]),
    ensures
        steps_view(a) == steps_view(b),
{
    lemma_steps_view_len(a);
    lemma_steps_view_len(b);
    assert forall|i: int| 0 <= i < steps_view(a).len() implies steps_view(a)[i]
        == steps_view(b)[i] by {
        assert(steps_view(a)[i] == step_view(a[i]));
        assert(steps_view(b)[i] == step_view(b[i]));
        assert(step_view(a[i]) == step_view(b[i]));
    }
    assert(steps_view(a) =~= steps_view(b));
}

/// Two job sequences with pointwise equal views have equal views.
pub proof fn lemma_jobs_view_pointwise(a: Seq<Job>, b: Seq<Job>)
    requires
        a.len() == b.len(),
        forall|i: int| 0 <= i < a.len() ==> job_view(#[trigger] a[i]) == job_view(#[trigger] b[i]),
    ensures
        jobs_view(a) == jobs_view(b),
{
    lemma_jobs_view_len(a);
    lemma_jobs_view_len(b);
    assert forall|i: int| 0 <= i < jobs_view(a).len() implies jobs_view(a)[i]
        == jobs_view(b)[i] by {
        assert(jobs_view(a)[i] == job_view(a[i]));
        assert(jobs_view(b)[i] == job_view(b[i]));
        assert(job_view(a[i]) == job_view(b[i]));
    }
    assert(jobs_view(a) =~= jobs_view(b));
}

/// Appending one step extends the view by that step's view.
pub proof fn lemma_steps_view_push(v: Seq<Step>, s: Step)
    ensures
        steps_view(v.push(s)) == steps_view(v).push(step_view(s)),
{
    lemma_steps_view_len(v.push(s));
    lemma_steps_view_len(v);
    let lhs = steps_view(v.push(s));
    let rhs = steps_view(v).push(step_view(s));
    assert forall|i: int| 0 <= i < lhs.len() implies lhs[i] == rhs[i] by {
        assert(lhs[i] == step_view(v.push(s)[i]));
        if i < v.len() {
            assert(v.push(s)[i] == v[i]);
            assert(rhs[i] == steps_view(v)[i]);
            assert(steps_view(v)[i] == step_view(v[i]));
        } else {
            assert(v.push(s)[i] == s);
        }
    }
    assert(lhs =~= rhs);
}

/// Appending one job extends the view by that job's view.
pub proof fn lemma_jobs_view_push(v: Seq<Job>, j: Job)
    ensures
        jobs_view(v.push(j)) == jobs_view(v).push(job_view(j)),
{
    lemma_jobs_view_len(v.push(j));
    lemma_jobs_view_len(v);
    let lhs = jobs_view(v.push(j));
    let rhs = jobs_view(v).push(job_view(j));
    assert forall|i: int| 0 <= i < lhs.len() implies lhs[i] == rhs[i] by {
        assert(lhs[i] == job_view(v.push(j)[i]));
        if i < v.len() {
            assert(v.push(j)[i] == v[i]);
            assert(rhs[i] == jobs_view(v)[i]);
            assert(jobs_view(v)[i] == job_view(v[i]));
        } else {
            assert(v.push(j)[i] == j);
        }
    }
    assert(lhs =~= rhs);
}

/// The view of the empty string literal is the empty character sequence.
pub proof fn lemma_empty_strlit()
    ensures
        ""@ == Seq::<char>::empty(),
{
    reveal_strlit("");
    assert(""@ =~= Seq::<char>::empty());
}

} // verus!
