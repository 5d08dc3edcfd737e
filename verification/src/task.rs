//! Tasks: units of executable work with inputs, outputs and an image.

use vstd::prelude::*;
use crate::errors::Errors;
use crate::model::SpecCommand;
use crate::model::SpecInput;
use crate::model::SpecOutput;
use crate::model::SpecPlatform;
use crate::model::SpecResource;
use crate::model::SpecResourceTypes;
use crate::model::SpecTask;
use crate::model::SpecTaskConfig;
use crate::model::SpecTaskDef;
use crate::model::SpecTaskResource;
use crate::model::hook_view;
use crate::model::inputs_view;
use crate::model::outputs_view;
use crate::model::task_resources_view;
use crate::model::view_opt;
use crate::resource::TaskImageResource;
use crate::schema::Config;
use crate::schema::DirPath;
use crate::schema::FilePath;
use crate::schema::Identifier;
use crate::schema::SpecEntry;
use crate::schema::spec_insert_entries;
use crate::schema::spec_insert_entry;
use crate::step::Step;

verus! {

/// The platform a task runs on.
pub enum Platform {
    Linux,
    Darwin,
    Windows,
}

impl Clone for Platform {
    /// A clone has the same view.
    fn clone(&self) -> (r: Self)
        ensures
            r@ == self@,
    {
        match self {
            Platform::Linux => Platform::Linux,
            Platform::Darwin => Platform::Darwin,
            Platform::Windows => Platform::Windows,
        }
    }
}

/// The command a task runs.
pub struct Command {
    pub path: FilePath,
    pub args: Option<Vec<String>>,
}

impl Clone for Command {
    /// A clone has the same view.
    fn clone(&self) -> (r: Self)
        ensures
            r@ == self@,
    {
        let r = Command {
            path: self.path.clone(),
            args: match &self.args {
                Some(v) => Some(v.clone()),
                None => None,
            },
        };
        proof {
            if self.args is Some {
                let a = self.args.unwrap()@;
                let b = r.args.unwrap()@;
                assert(Seq::new(b.len(), |i: int| b[i].view())
                    =~= Seq::new(a.len(), |i: int| a[i].view()));
            }
        }
        r
    }
}

impl Command {
    /// A command running `path` with the given arguments; an empty argument
    /// list is kept as no list at all.
    pub fn new(path: &str, args: &[&str]) -> (r: Self)
        ensures
            r@ == (SpecCommand {
                path: path@,
                args: if args@.len() == 0 {
                    None
                } else {
                    Some(Seq::new(args@.len(), |i: int| args@[i].view()))
                },
            }),
    {
        let args_vec: Option<Vec<String>> = if args.len() == 0 {
            None
        } else {
            let mut v: Vec<String> = Vec::new();
            let mut i: usize = 0;
            while i < args.len()
                invariant
                    i <= args@.len(),
                    v@.len() == i as int,
                    forall|m: int| 0 <= m < i ==> #[trigger] v@[m]@ == args@[m]@,
                decreases args@.len() - i,
            {
                let a = vstd::slice::slice_index_get(args, i);
                v.push((*a).to_owned());
                i = i + 1;
            }
            Some(v)
        };
        let r = Command { path: path.to_owned(), args: args_vec };
        proof {
            if args@.len() > 0 {
                let b = r.args.unwrap()@;
                assert(Seq::new(b.len(), |i: int| b[i].view())
                    =~= Seq::new(args@.len(), |i: int| args@[i].view()));
            }
        }
        r
    }
}

/// A declared input of an inline task configuration.
pub struct Input {
    pub name: Identifier,
    pub path: Option<DirPath>,
    pub optional: bool,
}

impl Clone for Input {
    /// A clone has the same view.
    fn clone(&self) -> (r: Self)
        ensures
            r@ == self@,
    {
        Input {
            name: self.name.clone(),
            path: match &self.path {
                Some(p) => Some(p.clone()),
                None => None,
            },
            optional: self.optional,
        }
    }
}

impl Input {
    /// An input of the given name with no path, not optional.
    pub fn new(name: &str) -> (r: Self)
        ensures
            r@ == (SpecInput { name: name@, path: None, optional: false }),
    {
        Input { name: name.to_owned(), path: None, optional: false }
    }

    /// The same input mounted at the given path.
    pub fn with_path(self, path: &str) -> (r: Self)
        ensures
            r@ == (SpecInput { path: Some(path@), ..self@ }),
    {
        let mut this = self;
        this.path = Some(path.to_owned());
        this
    }
}

/// A declared output of an inline task configuration.
pub struct Output {
    pub name: Identifier,
    pub path: Option<DirPath>,
}

impl Clone for Output {
    /// A clone has the same view.
    fn clone(&self) -> (r: Self)
        ensures
            r@ == self@,
    {
        Output {
            name: self.name.clone(),
            path: match &self.path {
                Some(p) => Some(p.clone()),
                None => None,
            },
        }
    }
}

impl Output {
    /// An output of the given name with no path.
    pub fn new(name: &str) -> (r: Self)
        ensures
            r@ == (SpecOutput { name: name@, path: None }),
    {
        Output { name: name.to_owned(), path: None }
    }

    /// The same output taken from the given path.
    pub fn with_path(self, path: &str) -> (r: Self)
        ensures
            r@ == (SpecOutput { path: Some(path@), ..self@ }),
    {
        let mut this = self;
        this.path = Some(path.to_owned());
        this
    }
}

/// An inline task configuration.
pub struct TaskConfig {
    pub platform: Platform,
    pub image_resource: TaskImageResource,
    pub run: Command,
    pub params: Option<Config>,
    pub inputs: Option<Vec<Input>>,
    pub outputs: Option<Vec<Output>>,
}

impl Clone for TaskConfig {
    /// A clone has the same view.
    fn clone(&self) -> (r: Self)
        ensures
            r@ == self@,
    {
        let r = TaskConfig {
            platform: self.platform.clone(),
            image_resource: self.image_resource.clone(),
            run: self.run.clone(),
            params: match &self.params {
                Some(p) => Some(p.clone()),
                None => None,
            },
            inputs: match &self.inputs {
                Some(v) => Some(clone_inputs(v)),
                None => None,
            },
            outputs: match &self.outputs {
                Some(v) => Some(clone_outputs(v)),
                None => None,
            },
        };
        r
    }
}

/// Rebuilds a vector of inputs; the result has the same view.
fn clone_inputs(v: &Vec<Input>) -> (r: Vec<Input>)
    ensures
        inputs_view(r@) == inputs_view(v@),
{
    let mut r: Vec<Input> = Vec::new();
    let mut i: usize = 0;
    while i < v.len()
        invariant
            i <= v@.len(),
            r@.len() == i as int,
            forall|m: int| 0 <= m < i ==> #[trigger] r@[m]@ == v@[m]@,
        decreases v@.len() - i,
    {
        let x = v[i].clone();
        r.push(x);
        i = i + 1;
    }
    proof {
        assert(inputs_view(r@) =~= inputs_view(v@));
    }
    r
}

/// Rebuilds a vector of outputs; the result has the same view.
fn clone_outputs(v: &Vec<Output>) -> (r: Vec<Output>)
    ensures
        outputs_view(r@) == outputs_view(v@),
{
    let mut r: Vec<Output> = Vec::new();
    let mut i: usize = 0;
    while i < v.len()
        invariant
            i <= v@.len(),
            r@.len() == i as int,
            forall|m: int| 0 <= m < i ==> #[trigger] r@[m]@ == v@[m]@,
        decreases v@.len() - i,
    {
        let x = v[i].clone();
        r.push(x);
        i = i + 1;
    }
    proof {
        assert(outputs_view(r@) =~= outputs_view(v@));
    }
    r
}

/// The view of the default Linux task configuration: a busybox image and a
/// friendly greeting.
pub open spec fn spec_linux_default_config() -> SpecTaskConfig {
    SpecTaskConfig {
        platform: SpecPlatform::Linux,
        image_resource: SpecResource {
            name: "busybox"@,
            icon: Some("docker"@),
            typ: SpecResourceTypes::RegistryImage,
            source: spec_insert_entry(Seq::empty(), "repository"@, "busybox"@),
            trigger: false,
            version: None,
        },
        run: SpecCommand { path: "echo"@, args: Some(seq!["hello, world!"@]) },
        params: None,
        inputs: None,
        outputs: None,
    }
}

impl TaskConfig {
    /// The default configuration for Linux.
    pub fn linux_default() -> (r: Self)
        ensures
            r@ == spec_linux_default_config(),
    {
        let r = TaskConfig {
            platform: Platform::Linux,
            image_resource: crate::resource::Resource::registry_image("busybox")
                .as_task_image_resource(),
            run: Command::new("echo", &["hello, world!"]),
            params: None,
            inputs: None,
            outputs: None,
        };
        proof {
            assert(r@.run.args.unwrap() =~= seq!["hello, world!"@]);
            assert(r@ == spec_linux_default_config());
        }
        r
    }

    /// The same configuration on the given platform.
    pub fn with_platform(self, platform: Platform) -> (r: Self)
        ensures
            r@ == (SpecTaskConfig { platform: platform@, ..self@ }),
    {
        let mut this = self;
        this.platform = platform;
        this
    }

    /// The same configuration with the given image resource.
    pub fn with_image_resource(self, image_resource: &TaskImageResource) -> (r: Self)
        ensures
            r@ == (SpecTaskConfig { image_resource: image_resource@, ..self@ }),
    {
        let mut this = self;
        this.image_resource = image_resource.clone();
        this
    }

    /// The same configuration running the given command.
    pub fn run(self, command: &Command) -> (r: Self)
        ensures
            r@ == (SpecTaskConfig { run: command@, ..self@ }),
    {
        let mut this = self;
        this.run = command.clone();
        this
    }

    /// The same configuration with its environment replaced by the given
    /// pairs.
    pub fn with_env(self, env: &[(&str, &str)]) -> (r: Self)
        ensures
            r@ == (SpecTaskConfig {
                params: Some(spec_insert_entries(Seq::empty(), env.deep_view())),
                ..self@
            }),
    {
        let mut cfg = Config::new();
        cfg.insert_all(env);
        let mut this = self;
        this.params = Some(cfg);
        this
    }

    /// The same configuration with the given declared inputs.
    pub fn with_inputs(self, inputs: Vec<Input>) -> (r: Self)
        ensures
            r@ == (SpecTaskConfig { inputs: Some(inputs_view(inputs@)), ..self@ }),
    {
        let mut this = self;
        this.inputs = Some(inputs);
        this
    }

    /// The same configuration with the given declared outputs.
    pub fn with_outputs(self, outputs: Vec<Output>) -> (r: Self)
        ensures
            r@ == (SpecTaskConfig { outputs: Some(outputs_view(outputs@)), ..self@ }),
    {
        let mut this = self;
        this.outputs = Some(outputs);
        this
    }
}

/// A binding handle wiring a resource or an earlier task's output into a
/// task's declared inputs or outputs.
pub enum TaskResource {
    /// A placeholder allocated before its value is known.
    Unbound,
    /// A concrete resource that must be fetched.
    Resource {
        resource: crate::resource::Resource,
        get_as: Option<String>,
        map_to: Option<String>,
    },
    /// An output produced by an earlier step in the same job.
    Output {
        name: Identifier,
        map_to: Option<String>,
        map_from: Option<String>,
    },
}

impl Clone for TaskResource {
    /// A clone has the same view.
    fn clone(&self) -> (r: Self)
        ensures
            r@ == self@,
    {
        match self {
            TaskResource::Unbound => TaskResource::Unbound,
            TaskResource::Resource { resource, get_as, map_to } => TaskResource::Resource {
                resource: resource.clone(),
                get_as: clone_opt_string(get_as),
                map_to: clone_opt_string(map_to),
            },
            TaskResource::Output { name, map_to, map_from } => TaskResource::Output {
                name: name.clone(),
                map_to: clone_opt_string(map_to),
                map_from: clone_opt_string(map_from),
            },
        }
    }
}

/// Copies an optional string.
fn clone_opt_string(o: &Option<String>) -> (r: Option<String>)
    ensures
        view_opt(r) == view_opt(*o),
        r == *o,
{
    match o {
        Some(s) => Some(s.clone()),
        None => None,
    }
}

impl TaskResource {
    /// A placeholder that a later `bind` resolves.
    pub fn unbound() -> (r: Self)
        ensures
            r@ == SpecTaskResource::Unbound,
    {
        TaskResource::Unbound
    }

    /// Renames the output in the producing task; only an output binding has a
    /// producer.
    pub fn map_from(self, map_from_name: &str) -> (r: Result<Self, Errors>)
        ensures
            r is Err <==> !(self is Output),
            r matches Err(e) ==> e matches Errors::CookError(m)
                && m@ == "map_from() can only be used with 'Output' TaskResource"@,
            self matches TaskResource::Output { name, map_to, map_from } ==> r matches Ok(t)
                && t@ == (SpecTaskResource::Output {
                    name: name@,
                    map_to: view_opt(map_to),
                    map_from: Some(map_from_name@),
                }),
    {
        match self {
            TaskResource::Output { name, map_to, .. } => Ok(TaskResource::Output {
                name,
                map_to,
                map_from: Some(map_from_name.to_owned()),
            }),
            _ => Err(Errors::from("map_from() can only be used with 'Output' TaskResource")),
        }
    }

    /// Sets the alias used for the implicit fetch; only a resource binding is
    /// fetched.
    pub fn get_as(self, name: &str) -> (r: Result<Self, Errors>)
        ensures
            r is Err <==> !(self is Resource),
            r matches Err(e) ==> e matches Errors::CookError(m)
                && m@ == "get_as() can only apply on TaskResource created from as_task_input_resource()"@,
            self matches TaskResource::Resource { resource, get_as, map_to } ==> r matches Ok(t)
                && t@ == (SpecTaskResource::Resource {
                    resource: resource@,
                    get_as: Some(name@),
                    map_to: view_opt(map_to),
                }),
    {
        match self {
            TaskResource::Resource { resource, map_to, .. } => Ok(TaskResource::Resource {
                resource,
                get_as: Some(name.to_owned()),
                map_to,
            }),
            _ => Err(Errors::from(
                "get_as() can only apply on TaskResource created from as_task_input_resource()",
            )),
        }
    }

    /// Sets the name the consuming task sees the binding under; a placeholder
    /// has nothing to rename.
    pub fn map_to(self, name: &str) -> (r: Result<Self, Errors>)
        ensures
            r is Err <==> self is Unbound,
            r matches Err(e) ==> e matches Errors::CookError(m)
                && m@ == "map_to() cannot apply on unbound TaskResource"@,
            self matches TaskResource::Resource { resource, get_as, map_to } ==> r matches Ok(t)
                && t@ == (SpecTaskResource::Resource {
                    resource: resource@,
                    get_as: view_opt(get_as),
                    map_to: Some(name@),
                }),
            self matches TaskResource::Output { name: out_name, map_to, map_from } ==> r matches Ok(t)
                && t@ == (SpecTaskResource::Output {
                    name: out_name@,
                    map_to: Some(name@),
                    map_from: view_opt(map_from),
                }),
    {
        match self {
            TaskResource::Resource { resource, get_as, .. } => Ok(TaskResource::Resource {
                resource,
                get_as,
                map_to: Some(name.to_owned()),
            }),
            TaskResource::Output { name: out_name, map_from, .. } => Ok(TaskResource::Output {
                name: out_name,
                map_to: Some(name.to_owned()),
                map_from,
            }),
            TaskResource::Unbound => Err(Errors::from(
                "map_to() cannot apply on unbound TaskResource",
            )),
        }
    }

    /// Stores a copy of this binding in `to` and hands the binding back: the
    /// two-phase protocol that resolves a forward reference.
    pub fn bind(self, to: &mut Self) -> (r: Self)
        ensures
            final(to)@ == self@,
            r@ == self@,
    {
        *to = self.clone();
        self
    }

    /// An output binding for the given name.
    pub fn output(identifier: &str) -> (r: Self)
        ensures
            r@ == (SpecTaskResource::Output { name: identifier@, map_to: None, map_from: None }),
    {
        TaskResource::Output {
            name: identifier.to_owned(),
            map_to: None,
            map_from: None,
        }
    }
}

/// Where a task's definition lives: an external file the tool must not
/// mutate, or an inline configuration.
pub enum TaskDef {
    File { file: FilePath },
    Config { config: TaskConfig },
}

impl Clone for TaskDef {
    /// A clone has the same view.
    fn clone(&self) -> (r: Self)
        ensures
            task_def_view(r) == task_def_view(*self),
    {
        match self {
            TaskDef::File { file } => TaskDef::File { file: file.clone() },
            TaskDef::Config { config } => TaskDef::Config { config: config.clone() },
        }
    }
}

/// The view of a task definition.
pub open spec fn task_def_view(d: TaskDef) -> SpecTaskDef {
    match d {
        TaskDef::File { file } => SpecTaskDef::File { file: file@ },
        TaskDef::Config { config } => SpecTaskDef::Config { config: config@ },
    }
}

impl TaskDef {
    /// Whether the definition lives in an external file.
    pub(crate) fn is_from_file(&self) -> (r: bool)
        ensures
            r == (task_def_view(*self) is File),
    {
        match self {
            TaskDef::File { .. } => true,
            _ => false,
        }
    }
}

/// One step of the synthesized input-name mapping: a binding with `map_to`
/// set maps that name to the fetched alias (resource bindings) or to the
/// output's name (output bindings).
pub open spec fn spec_input_mapping_step(acc: Seq<SpecEntry>, i: SpecTaskResource) -> Seq<SpecEntry> {
    match i {
        SpecTaskResource::Resource { resource, get_as, map_to } => match map_to {
            Some(mt) => spec_insert_entry(
                acc,
                mt,
                match get_as {
                    Some(g) => g,
                    None => resource.name,
                },
            ),
            None => acc,
        },
        SpecTaskResource::Output { name, map_to, .. } => match map_to {
            Some(mt) => spec_insert_entry(acc, mt, name),
            None => acc,
        },
        SpecTaskResource::Unbound => acc,
    }
}

/// The input-name mapping synthesized from a list of bindings, left to right.
pub open spec fn spec_input_mapping(acc: Seq<SpecEntry>, inputs: Seq<SpecTaskResource>) -> Seq<SpecEntry>
    decreases inputs.len(),
{
    if inputs.len() == 0 {
        acc
    } else {
        spec_input_mapping(spec_input_mapping_step(acc, inputs[0]), inputs.drop_first())
    }
}

/// One step of the synthesized output-name mapping: an output binding with
/// `map_from` set maps that name to the output's name.
pub open spec fn spec_output_mapping_step(acc: Seq<SpecEntry>, o: SpecTaskResource) -> Seq<SpecEntry> {
    match o {
        SpecTaskResource::Output { name, map_from, .. } => match map_from {
            Some(mf) => spec_insert_entry(acc, mf, name),
            None => acc,
        },
        _ => acc,
    }
}

/// The output-name mapping synthesized from a list of bindings.
pub open spec fn spec_output_mapping(acc: Seq<SpecEntry>, outputs: Seq<SpecTaskResource>) -> Seq<SpecEntry>
    decreases outputs.len(),
{
    if outputs.len() == 0 {
        acc
    } else {
        spec_output_mapping(spec_output_mapping_step(acc, outputs[0]), outputs.drop_first())
    }
}

/// The views of a slice of borrowed bindings.
pub open spec fn borrowed_resources_view(v: Seq<&TaskResource>) -> Seq<SpecTaskResource> {
    Seq::new(v.len(), |i: int| v[i].view())
}

/// A unit of executable work: a definition, an optional image, name
/// remappings, declared inputs and outputs, and hooks.
pub struct Task {
    pub task: Identifier,
    pub task_def: TaskDef,
    pub image: Option<TaskImageResource>,
    pub priviledged: bool,
    pub params: Option<Config>,
    pub input_mapping: Option<Config>,
    pub output_mapping: Option<Config>,
    pub inputs: Option<Vec<TaskResource>>,
    pub outputs: Option<Vec<TaskResource>>,
    pub on_failure: Option<Box<Step>>,
    pub on_abort: Option<Box<Step>>,
    pub on_success: Option<Box<Step>>,
}

/// Relies on names::Generator to draw a random human-readable name. Its
/// iterator always yields an adjective and a noun picked from two non-empty
/// built-in word lists, joined with a hyphen, so the drawn name is never
/// empty; which name comes out depends on the generator's random state, so
/// nothing more is promised of it.
#[verifier::external_body]
fn fresh_task_name() -> (r: String)
    ensures
        r@.len() > 0,
{
    names::Generator::default().next().unwrap_or_default()
}

impl Clone for Task {
    /// A clone has the same view.
    fn clone(&self) -> (r: Self)
        ensures
            r@ == self@,
        decreases *self,
    {
        Task {
            task: self.task.clone(),
            task_def: self.task_def.clone(),
            image: match &self.image {
                Some(i) => Some(i.clone()),
                None => None,
            },
            priviledged: self.priviledged,
            params: clone_opt_config(&self.params),
            input_mapping: clone_opt_config(&self.input_mapping),
            output_mapping: clone_opt_config(&self.output_mapping),
            inputs: match &self.inputs {
                Some(v) => Some(clone_task_resources(v)),
                None => None,
            },
            outputs: match &self.outputs {
                Some(v) => Some(clone_task_resources(v)),
                None => None,
            },
            on_failure: clone_task_hook(&self.on_failure),
            on_abort: clone_task_hook(&self.on_abort),
            on_success: clone_task_hook(&self.on_success),
        }
    }
}

/// Copies an optional configuration map.
fn clone_opt_config(o: &Option<Config>) -> (r: Option<Config>)
    ensures
        view_opt(r) == view_opt(*o),
{
    match o {
        Some(c) => Some(c.clone()),
        None => None,
    }
}

/// Rebuilds a vector of bindings; the result has the same view.
fn clone_task_resources(v: &Vec<TaskResource>) -> (r: Vec<TaskResource>)
    ensures
        task_resources_view(r@) == task_resources_view(v@),
{
    let mut r: Vec<TaskResource> = Vec::new();
    let mut i: usize = 0;
    while i < v.len()
        invariant
            i <= v@.len(),
            r@.len() == i as int,
            forall|m: int| 0 <= m < i ==> #[trigger] r@[m]@ == v@[m]@,
        decreases v@.len() - i,
    {
        let x = v[i].clone();
        r.push(x);
        i = i + 1;
    }
    proof {
        assert(task_resources_view(r@) =~= task_resources_view(v@));
    }
    r
}

/// Rebuilds an optional boxed hook step; the result has the same view.
pub(crate) fn clone_task_hook(o: &Option<Box<Step>>) -> (r: Option<Box<Step>>)
    ensures
        hook_view(r) == hook_view(*o),
    decreases *o,
{
    match o {
        Some(b) => Some(Box::new((**b).clone())),
        None => None,
    }
}

impl Task {
    /// The view of a fresh task: a default Linux config and nothing else.
    pub open spec fn fresh_spec(name: Seq<char>, def: SpecTaskDef) -> SpecTask {
        SpecTask {
            task: name,
            task_def: def,
            image: None,
            priviledged: false,
            params: None,
            input_mapping: None,
            output_mapping: None,
            inputs: None,
            outputs: None,
            on_failure: None,
            on_abort: None,
            on_success: None,
        }
    }

    /// A fresh task with a generated, non-empty name and the default Linux
    /// configuration.
    pub fn new() -> (r: Task)
        ensures
            r@ == Self::fresh_spec(
                r@.task,
                SpecTaskDef::Config { config: spec_linux_default_config() },
            ),
            r@.task.len() > 0,
    {
        Task {
            task: fresh_task_name(),
            task_def: TaskDef::Config { config: TaskConfig::linux_default() },
            image: None,
            priviledged: false,
            params: None,
            input_mapping: None,
            output_mapping: None,
            inputs: None,
            outputs: None,
            on_abort: None,
            on_failure: None,
            on_success: None,
        }
    }

    /// A fresh task with a generated, non-empty name, defined by an external
    /// file.
    pub fn from_file(file: &str) -> (r: Task)
        ensures
            r@ == Self::fresh_spec(r@.task, SpecTaskDef::File { file: file@ }),
            r@.task.len() > 0,
    {
        Task {
            task: fresh_task_name(),
            task_def: TaskDef::File { file: file.to_owned() },
            image: None,
            priviledged: false,
            params: None,
            input_mapping: None,
            output_mapping: None,
            inputs: None,
            outputs: None,
            on_abort: None,
            on_failure: None,
            on_success: None,
        }
    }

    /// The validation error for a mutator that needs an inline config called
    /// on a file-defined task.
    fn file_task_misuse(&self, method: &str) -> (e: Errors)
        ensures
            e matches Errors::CookError(m) && m@ == method@
                + " cannot be called in 'task' ('"@ + self@.task
                + "') that is initialized from 'file'."@,
    {
        let mut m = String::new();
        m.append(method);
        m.append(" cannot be called in 'task' ('");
        m.append(self.task.as_str());
        m.append("') that is initialized from 'file'.");
        Errors::CookError(m)
    }

    /// The same task on the given platform; a file-defined task has no
    /// inline config to change.
    pub fn with_platform(self, platform: Platform) -> (r: Result<Self, Errors>)
        ensures
            r is Err <==> self@.task_def is File,
            r matches Err(e) ==> e matches Errors::CookError(m)
                && m@ == ".with_platform()"@ + " cannot be called in 'task' ('"@ + self@.task
                    + "') that is initialized from 'file'."@,
            self.task_def matches TaskDef::Config { config } ==> r matches Ok(t) && t@
                == (SpecTask {
                task_def: SpecTaskDef::Config {
                    config: SpecTaskConfig { platform: platform@, ..config@ },
                },
                ..self@
            }),
    {
        let mut this = self;
        match this.task_def {
            TaskDef::File { file } => {
                this.task_def = TaskDef::File { file };
                let e = this.file_task_misuse(".with_platform()");
                Err(e)
            }
            TaskDef::Config { config } => {
                this.task_def = TaskDef::Config { config: config.with_platform(platform) };
                Ok(this)
            }
        }
    }

    /// The same task under the given name.
    pub fn with_name(self, name: &str) -> (r: Self)
        ensures
            r@ == (SpecTask { task: name@, ..self@ }),
    {
        let mut this = self;
        this.task = name.to_owned();
        this
    }

    /// The same task running the given command; a file-defined task has no
    /// inline config to change.
    pub fn run(self, command: &Command) -> (r: Result<Self, Errors>)
        ensures
            r is Err <==> self@.task_def is File,
            r matches Err(e) ==> e matches Errors::CookError(m)
                && m@ == ".run()"@ + " cannot be called in 'task' ('"@ + self@.task
                    + "') that is initialized from 'file'."@,
            self.task_def matches TaskDef::Config { config } ==> r matches Ok(t) && t@
                == (SpecTask {
                task_def: SpecTaskDef::Config {
                    config: SpecTaskConfig { run: command@, ..config@ },
                },
                ..self@
            }),
    {
        let mut this = self;
        match this.task_def {
            TaskDef::File { file } => {
                this.task_def = TaskDef::File { file };
                let e = this.file_task_misuse(".run()");
                Err(e)
            }
            TaskDef::Config { config } => {
                this.task_def = TaskDef::Config { config: config.run(command) };
                Ok(this)
            }
        }
    }

    /// The same task with the given image, which overrides the inline
    /// config's image at render time.
    pub fn with_image(self, image: TaskImageResource) -> (r: Self)
        ensures
            r@ == (SpecTask { image: Some(image@), ..self@ }),
    {
        let mut this = self;
        this.image = Some(image);
        this
    }

    /// The same task with the inline config's image resource replaced; a
    /// file-defined task has no inline config to change.
    pub fn with_image_resource(self, image_resource: TaskImageResource) -> (r: Result<Self, Errors>)
        ensures
            r is Err <==> self@.task_def is File,
            r matches Err(e) ==> e matches Errors::CookError(m)
                && m@ == ".with_image_resource()"@ + " cannot be called in 'task' ('"@ + self@.task
                    + "') that is initialized from 'file'."@,
            self.task_def matches TaskDef::Config { config } ==> r matches Ok(t) && t@
                == (SpecTask {
                task_def: SpecTaskDef::Config {
                    config: SpecTaskConfig { image_resource: image_resource@, ..config@ },
                },
                ..self@
            }),
    {
        let mut this = self;
        match this.task_def {
            TaskDef::File { file } => {
                this.task_def = TaskDef::File { file };
                let e = this.file_task_misuse(".with_image_resource()");
                Err(e)
            }
            TaskDef::Config { config } => {
                this.task_def = TaskDef::Config { config: config.with_image_resource(&image_resource) };
                Ok(this)
            }
        }
    }

    /// The same task with its params replaced by the given pairs.
    pub fn with_params(self, params: &[(&str, &str)]) -> (r: Self)
        ensures
            r@ == (SpecTask {
                params: Some(spec_insert_entries(Seq::empty(), params.deep_view())),
                ..self@
            }),
    {
        let mut cfg = Config::new();
        cfg.insert_all(params);
        let mut this = self;
        this.params = Some(cfg);
        this
    }

    /// The same task with the given declared inputs, and the input-name
    /// mapping synthesized from their `map_to` fields. A placeholder binding
    /// carries no resource yet and is refused.
    pub fn with_inputs(self, inputs: &[&TaskResource]) -> (r: Result<Self, Errors>)
        ensures
            r is Err <==> exists|m: int|
                0 <= m < inputs@.len() && borrowed_resources_view(inputs@)[m] is Unbound,
            r matches Err(e) ==> e matches Errors::CookError(msg)
                && msg@ == "Cannot pass unbound TaskResource to with_inputs()"@,
            r matches Ok(t) ==> t@ == (SpecTask {
                inputs: Some(borrowed_resources_view(inputs@)),
                input_mapping: if spec_input_mapping(
                    Seq::empty(),
                    borrowed_resources_view(inputs@),
                ).len() == 0 {
                    self@.input_mapping
                } else {
                    Some(spec_input_mapping(Seq::empty(), borrowed_resources_view(inputs@)))
                },
                ..self@
            }),
    {
        let ghost iv = borrowed_resources_view(inputs@);
        let mut owned: Vec<TaskResource> = Vec::new();
        let mut mapping = Config::new();
        let mut i: usize = 0;
        while i < inputs.len()
            invariant
                i <= iv.len(),
                iv == borrowed_resources_view(inputs@),
                iv.len() == inputs@.len(),
                owned@.len() == i as int,
                forall|m: int| 0 <= m < i ==> #[trigger] owned@[m]@ == iv[m],
                forall|m: int| 0 <= m < i ==> !(#[trigger] iv[m] is Unbound),
                crate::schema::entries_sorted(mapping@),
                mapping@ == spec_input_mapping(Seq::empty(), iv.subrange(0, i as int)),
            decreases iv.len() - i,
        {
            let inp = *vstd::slice::slice_index_get(inputs, i);
            let ghost before = mapping@;
            match inp {
                TaskResource::Resource { resource, get_as, map_to } => {
                    match map_to {
                        Some(mt) => {
                            match get_as {
                                Some(g) => mapping.insert(mt.as_str(), g.as_str()),
                                None => mapping.insert(mt.as_str(), resource.name.as_str()),
                            }
                        }
                        None => {}
                    }
                }
                TaskResource::Output { name, map_to, .. } => {
                    match map_to {
                        Some(mt) => mapping.insert(mt.as_str(), name.as_str()),
                        None => {}
                    }
                }
                TaskResource::Unbound => {
                    return Err(Errors::from("Cannot pass unbound TaskResource to with_inputs()"));
                }
            }
            owned.push(inp.clone());
            proof {
                lemma_input_mapping_snoc(iv, i as int);
                assert(mapping@ == spec_input_mapping_step(before, iv[i as int]));
            }
            i = i + 1;
        }
        proof {
            assert(iv.subrange(0, iv.len() as int) =~= iv);
            assert(task_resources_view(owned@) =~= iv);
        }
        let mut this = self;
        this.inputs = Some(owned);
        if mapping.len() > 0 {
            this.input_mapping = Some(mapping);
        }
        Ok(this)
    }

    /// The same task with the given declared outputs, and the output-name
    /// mapping synthesized from their `map_from` fields. Only output bindings
    /// can be produced by a task; an empty list leaves the task unchanged.
    pub fn with_outputs(self, outputs: &[&TaskResource]) -> (r: Result<Self, Errors>)
        ensures
            r is Err <==> exists|m: int|
                0 <= m < outputs@.len() && !(borrowed_resources_view(outputs@)[m] is Output),
            r matches Err(e) ==> e matches Errors::CookError(msg)
                && msg@ == "Only 'Output' TaskResource can be used in with_outputs()"@,
            outputs@.len() == 0 ==> (r matches Ok(t) && t@ == self@),
            outputs@.len() > 0 ==> (r matches Ok(t) ==> t@ == (SpecTask {
                outputs: Some(borrowed_resources_view(outputs@)),
                output_mapping: if spec_output_mapping(
                    Seq::empty(),
                    borrowed_resources_view(outputs@),
                ).len() == 0 {
                    None
                } else {
                    Some(spec_output_mapping(Seq::empty(), borrowed_resources_view(outputs@)))
                },
                ..self@
            })),
    {
        if outputs.len() == 0 {
            return Ok(self);
        }
        let ghost ov = borrowed_resources_view(outputs@);
        let mut owned: Vec<TaskResource> = Vec::new();
        let mut mapping = Config::new();
        let mut i: usize = 0;
        while i < outputs.len()
            invariant
                i <= ov.len(),
                ov == borrowed_resources_view(outputs@),
                ov.len() == outputs@.len(),
                owned@.len() == i as int,
                forall|m: int| 0 <= m < i ==> #[trigger] owned@[m]@ == ov[m],
                forall|m: int| 0 <= m < i ==> #[trigger] ov[m] is Output,
                crate::schema::entries_sorted(mapping@),
                mapping@ == spec_output_mapping(Seq::empty(), ov.subrange(0, i as int)),
            decreases ov.len() - i,
        {
            let out = *vstd::slice::slice_index_get(outputs, i);
            let ghost before = mapping@;
            match out {
                TaskResource::Output { name, map_from, .. } => {
                    match map_from {
                        Some(mf) => mapping.insert(mf.as_str(), name.as_str()),
                        None => {}
                    }
                }
                _ => {
                    return Err(Errors::from("Only 'Output' TaskResource can be used in with_outputs()"));
                }
            }
            owned.push(out.clone());
            proof {
                lemma_output_mapping_snoc(ov, i as int);
                assert(mapping@ == spec_output_mapping_step(before, ov[i as int]));
            }
            i = i + 1;
        }
        proof {
            assert(ov.subrange(0, ov.len() as int) =~= ov);
            assert(task_resources_view(owned@) =~= ov);
        }
        let mut this = self;
        this.outputs = Some(owned);
        if mapping.len() > 0 {
            this.output_mapping = Some(mapping);
        } else {
            this.output_mapping = None;
        }
        Ok(this)
    }

    /// The same task with its inline config rewritten by the given function;
    /// a file-defined task has no inline config to change.
    pub fn mutate_task_config<F: Fn(TaskConfig) -> TaskConfig>(self, task_config_mutator: F) -> (r:
        Result<Self, Errors>)
        requires
            forall|c: TaskConfig| #[trigger] task_config_mutator.requires((c,)),
        ensures
            r is Err <==> self@.task_def is File,
            r matches Err(e) ==> e matches Errors::CookError(m)
                && m@ == ".mutate_task_config()"@ + " cannot be called in 'task' ('"@ + self@.task
                    + "') that is initialized from 'file'."@,
            r matches Ok(t) ==> exists|c1: TaskConfig|
                #[trigger] task_config_mutator.ensures(
                    (task_def_config(self.task_def),
                ), c1) && t@ == (SpecTask {
                    task_def: SpecTaskDef::Config { config: c1@ },
                    ..self@
                }),
    {
        let mut this = self;
        match this.task_def {
            TaskDef::File { file } => {
                this.task_def = TaskDef::File { file };
                let e = this.file_task_misuse(".mutate_task_config()");
                Err(e)
            }
            TaskDef::Config { config } => {
                let new_config = task_config_mutator(config);
                this.task_def = TaskDef::Config { config: new_config };
                Ok(this)
            }
        }
    }

    /// Wraps the task into a step.
    pub fn to_step(self) -> (r: Step)
        ensures
            r@ == crate::model::SpecStep::Task(self@),
    {
        Step::Task(self)
    }

    /// The same task with the given failure hook.
    pub fn on_failure(self, step: Step) -> (r: Self)
        ensures
            r@ == (SpecTask { on_failure: Some(Box::new(step@)), ..self@ }),
    {
        let mut this = self;
        this.on_failure = Some(Box::new(step));
        this
    }

    /// The same task with the given abort hook.
    pub fn on_abort(self, step: Step) -> (r: Self)
        ensures
            r@ == (SpecTask { on_abort: Some(Box::new(step@)), ..self@ }),
    {
        let mut this = self;
        this.on_abort = Some(Box::new(step));
        this
    }

    /// The same task with the given success hook.
    pub fn on_success(self, step: Step) -> (r: Self)
        ensures
            r@ == (SpecTask { on_success: Some(Box::new(step@)), ..self@ }),
    {
        let mut this = self;
        this.on_success = Some(Box::new(step));
        this
    }
}

/// The inline config of a task definition; arbitrary for a file definition.
pub open spec fn task_def_config(d: TaskDef) -> TaskConfig {
    match d {
        TaskDef::Config { config } => config,
        TaskDef::File { .. } => arbitrary(),
    }
}

/// Folding one more binding extends the synthesized input mapping by one
/// step.
proof fn lemma_input_mapping_snoc(iv: Seq<SpecTaskResource>, i: int)
    requires
        0 <= i < iv.len(),
    ensures
        spec_input_mapping(Seq::empty(), iv.subrange(0, i + 1)) == spec_input_mapping_step(
            spec_input_mapping(Seq::empty(), iv.subrange(0, i)),
            iv[i],
        ),
{
    lemma_input_mapping_snoc_general(Seq::empty(), iv, i);
}

/// Folding is compatible with taking one more element, for any accumulator.
proof fn lemma_input_mapping_snoc_general(acc: Seq<SpecEntry>, iv: Seq<SpecTaskResource>, i: int)
    requires
        0 <= i < iv.len(),
    ensures
        spec_input_mapping(acc, iv.subrange(0, i + 1)) == spec_input_mapping_step(
            spec_input_mapping(acc, iv.subrange(0, i)),
            iv[i],
        ),
    decreases i,
{
    if i == 0 {
        let s1 = iv.subrange(0, 1);
        assert(iv.subrange(0, 0) =~= Seq::<SpecTaskResource>::empty());
        assert(s1.len() == 1);
        assert(s1[0] == iv[0]);
        assert(s1.drop_first() =~= Seq::<SpecTaskResource>::empty());
        assert(spec_input_mapping(acc, s1)
            == spec_input_mapping(spec_input_mapping_step(acc, iv[0]), s1.drop_first()));
    } else {
        let s1 = iv.subrange(0, i + 1);
        let s0 = iv.subrange(0, i);
        assert(s1[0] == iv[0]);
        assert(s0[0] == iv[0]);
        assert(s0.drop_first() =~= iv.drop_first().subrange(0, i - 1));
        assert(s1.drop_first() =~= iv.drop_first().subrange(0, i));
        lemma_input_mapping_snoc_general(
            spec_input_mapping_step(acc, iv[0]),
            iv.drop_first(),
            i - 1,
        );
        assert(iv.drop_first()[i - 1] == iv[i]);
    }
}

/// Folding one more binding extends the synthesized output mapping by one
/// step.
proof fn lemma_output_mapping_snoc(ov: Seq<SpecTaskResource>, i: int)
    requires
        0 <= i < ov.len(),
    ensures
        spec_output_mapping(Seq::empty(), ov.subrange(0, i + 1)) == spec_output_mapping_step(
            spec_output_mapping(Seq::empty(), ov.subrange(0, i)),
            ov[i],
        ),
{
    lemma_output_mapping_snoc_general(Seq::empty(), ov, i);
}

/// Folding is compatible with taking one more element, for any accumulator.
proof fn lemma_output_mapping_snoc_general(acc: Seq<SpecEntry>, ov: Seq<SpecTaskResource>, i: int)
    requires
        0 <= i < ov.len(),
    ensures
        spec_output_mapping(acc, ov.subrange(0, i + 1)) == spec_output_mapping_step(
            spec_output_mapping(acc, ov.subrange(0, i)),
            ov[i],
        ),
    decreases i,
{
    if i == 0 {
        let s1 = ov.subrange(0, 1);
        assert(ov.subrange(0, 0) =~= Seq::<SpecTaskResource>::empty());
        assert(s1.len() == 1);
        assert(s1[0] == ov[0]);
        assert(s1.drop_first() =~= Seq::<SpecTaskResource>::empty());
        assert(spec_output_mapping(acc, s1)
            == spec_output_mapping(spec_output_mapping_step(acc, ov[0]), s1.drop_first()));
    } else {
        let s1 = ov.subrange(0, i + 1);
        let s0 = ov.subrange(0, i);
        assert(s1[0] == ov[0]);
        assert(s0[0] == ov[0]);
        assert(s0.drop_first() =~= ov.drop_first().subrange(0, i - 1));
        assert(s1.drop_first() =~= ov.drop_first().subrange(0, i));
        lemma_output_mapping_snoc_general(
            spec_output_mapping_step(acc, ov[0]),
            ov.drop_first(),
            i - 1,
        );
        assert(ov.drop_first()[i - 1] == ov[i]);
    }
}

} // verus!
