use typed_concourse::cook::cook_pipeline;
use typed_concourse::cook::optimize_pipeline;
use typed_concourse::errors::Errors;
use typed_concourse::job::Job;
use typed_concourse::pipeline::Pipeline;
use typed_concourse::resource::Resource;
use typed_concourse::resource::ResourceTypes;
use typed_concourse::task::Command;
use typed_concourse::task::Task;
use typed_concourse::task::TaskResource;
use typed_concourse::schema::Config;
use typed_concourse::schema::Version;

// A task that needs an unfetched resource gets one coalesced fetch group
// injected just before it, and the resource is declared exactly once.
#[test]
fn implicit_fetch_is_injected_before_the_task() {
    let repo = Resource::time("10m").with_name("repo");
    let pipeline = Pipeline::new().append(
        Job::new("build").then(
            Task::new()
                .with_name("compile")
                .run(&Command::new("make", &[]))
                .unwrap()
                .with_inputs(&[&repo.as_task_input_resource()])
                .unwrap()
                .to_step(),
        ),
    );
    let yaml = cook_pipeline(&pipeline).unwrap();
    assert_eq!(
        yaml,
        r#"jobs:
- name: build
  plan:
  - in_parallel:
    - get: repo
  - task: compile
    config:
      platform: linux
      image_resource:
        type: registry-image
        source:
          repository: busybox
      run:
        path: make
      inputs:
      - name: repo
resources:
- name: repo
  type: time
  icon: clock-outline
  source:
    interval: 10m
"#
    );
    assert_eq!(yaml.matches("\nresources:").count(), 1);
}

// A resource fetched earlier in the same sequential scope is not fetched
// again for a later task, and the explicit fetch keeps its trigger flag.
#[test]
fn no_duplicate_fetch_in_sequential_scope() {
    let repo = Resource::time("10m").with_name("repo");
    let pipeline = Pipeline::new().append(
        Job::new("build")
            .then(repo.as_get_resource().with_trigger(true).get())
            .then(
                Task::new()
                    .with_name("compile")
                    .run(&Command::new("make", &[]))
                    .unwrap()
                    .with_inputs(&[&repo.as_task_input_resource()])
                    .unwrap()
                    .to_step(),
            ),
    );
    let yaml = cook_pipeline(&pipeline).unwrap();
    assert!(!yaml.contains("in_parallel"));
    assert!(yaml.contains("trigger: true"));
    assert_eq!(yaml.matches("get: repo").count(), 1);
}

// Sibling branches of a parallel group start from empty scopes, so each one
// fetches the resource for itself; a step after the group sees the merged
// scope and does not fetch again.
#[test]
fn parallel_branches_fetch_independently() {
    let repo = Resource::time("10m").with_name("repo");
    let branch = |name: &str| {
        Task::new()
            .with_name(name)
            .run(&Command::new("make", &[]))
            .unwrap()
            .with_inputs(&[&repo.as_task_input_resource()])
            .unwrap()
            .to_step()
    };
    let after = Task::new()
        .with_name("after")
        .run(&Command::new("make", &[]))
        .unwrap()
        .with_inputs(&[&repo.as_task_input_resource()])
        .unwrap()
        .to_step();
    let pipeline = Pipeline::new().append(
        Job::new("build")
            .parallel(&[branch("left"), branch("right")])
            .then(after),
    );
    let yaml = cook_pipeline(&pipeline).unwrap();
    assert_eq!(yaml.matches("get: repo").count(), 2);
    let after_pos = yaml.find("task: after").unwrap();
    assert!(yaml[after_pos..].find("get: repo").is_none());
}

// A file-defined task keeps its file reference untouched while still having
// its resource inputs fetched.
#[test]
fn file_task_is_left_untouched() {
    let repo = Resource::time("10m").with_name("repo");
    let pipeline = Pipeline::new().append(
        Job::new("build").then(
            Task::from_file("ci/task.yml")
                .with_name("compile")
                .with_inputs(&[&repo.as_task_input_resource()])
                .unwrap()
                .to_step(),
        ),
    );
    let yaml = cook_pipeline(&pipeline).unwrap();
    assert!(yaml.contains("file: ci/task.yml"));
    assert!(yaml.contains("get: repo"));
    assert!(!yaml.contains("config:"));
    assert!(!yaml.contains("inputs:"));
}

// A pipeline without jobs fails normalization with a validation error.
#[test]
fn empty_pipeline_is_refused() {
    let pipeline = Pipeline::new();
    match optimize_pipeline(&pipeline) {
        Err(Errors::CookError(m)) => {
            assert_eq!(m, "Cannot cook a pipeline with no jobs");
        }
        _ => panic!("an empty pipeline must be refused"),
    }
    assert!(cook_pipeline(&pipeline).is_err());
}

// A placeholder binding that was never resolved is refused at cook time.
#[test]
fn unresolved_placeholder_is_refused() {
    let mut hole = TaskResource::unbound();
    let filled = TaskResource::output("files").bind(&mut hole);
    drop(filled);
    let placeholder = TaskResource::unbound();
    match placeholder {
        TaskResource::Unbound => {}
        _ => panic!("a fresh placeholder is unbound"),
    }
    match Task::new().with_inputs(&[&placeholder]) {
        Err(Errors::CookError(m)) => {
            assert_eq!(m, "Cannot pass unbound TaskResource to with_inputs()");
        }
        _ => panic!("an unbound binding must be refused"),
    }
}

// Binding a placeholder resolves it to the concrete binding.
#[test]
fn bind_resolves_a_placeholder() {
    let mut hole = TaskResource::unbound();
    let _files = TaskResource::output("files").bind(&mut hole);
    match hole {
        TaskResource::Output { name, .. } => assert_eq!(name, "files"),
        _ => panic!("the placeholder must be resolved"),
    }
}

// The repository name reported by the URL parser names the git resource, so
// a changed URL changes the name; queries are allowed on remote schemes,
// while shapes outside the supported set are refused as invalid.
#[test]
fn git_resource_is_named_after_the_repository() {
    let docs = Resource::git("https://github.com/concourse/docs", "").unwrap();
    assert_eq!(docs.name(), "docs");
    let with_branch = Resource::git("https://gitlab.example.com/a/b.git", "main").unwrap();
    assert_eq!(with_branch.name(), "b.main");
    let with_query = Resource::git("https://example.com/a/b?x", "").unwrap();
    assert_eq!(with_query.name(), "b");
    let scp_style = Resource::git("git@example.com:team/thing.git", "").unwrap();
    assert_eq!(scp_style.name(), "thing");
    assert!(Resource::git("ssh://host/?x", "").is_err());
    assert!(Resource::git("https://dev.azure.com/org", "").is_err());
    assert!(Resource::git("https://dev%2eazure%2ecom/org", "").is_err());
}

// Builder misuse is reported as a typed error, never a crash.
#[test]
fn builder_misuse_is_reported() {
    let repo = Resource::time("10m").with_name("repo");
    assert!(repo.as_task_input_resource().map_from("x").is_err());
    assert!(TaskResource::output("o").get_as("x").is_err());
    assert!(TaskResource::unbound().map_to("x").is_err());
    assert!(Task::from_file("t.yml").run(&Command::new("sh", &[])).is_err());
    assert!(Task::new().with_outputs(&[&TaskResource::unbound()]).is_err());
    assert!(Job::new("j").fallible(None, None, None).is_err());
    assert!(ResourceTypes::Git.with_source(&[("a", "b")]).is_err());
}

// Custom resource type chains register every custom ancestor, deduplicated
// by name, while the rendered type names one level of the chain.
#[test]
fn custom_type_chain_is_registered() {
    let base = ResourceTypes::new("base-kind", ResourceTypes::RegistryImage);
    let derived = ResourceTypes::new("derived-kind", base);
    let res = Resource::new("thing", &derived);
    let pipeline = Pipeline::new().append(
        Job::new("job").then(res.as_get_resource().get()),
    );
    let yaml = cook_pipeline(&pipeline).unwrap();
    assert!(yaml.contains("resource_types:\n- name: derived-kind\n  type: base-kind\n- name: base-kind\n  type: registry-image\n"));
}

// Cooking is a pure function of its input: the same pipeline cooks to the
// same bytes, call after call.
#[test]
fn cooking_twice_gives_identical_output() {
    let every_30s = Resource::time("30s");
    let pipeline = Pipeline::new().append(
        Job::new("job")
            .then(every_30s.as_get_resource().with_trigger(true).get())
            .then(
                Task::new()
                    .with_name("simple-task")
                    .run(&Command::new("echo", &["Hello, world!"]))
                    .unwrap()
                    .to_step(),
            ),
    );
    let first = cook_pipeline(&pipeline).unwrap();
    let second = cook_pipeline(&pipeline).unwrap();
    assert_eq!(first, second);
}

// Versions render as the literal words or as the pinned mapping.
#[test]
fn versions_render_as_words_or_mappings() {
    let repo = Resource::time("10m").with_name("repo");
    let pipeline = Pipeline::new().append(
        Job::new("job").then(
            repo.as_get_resource()
                .with_version(Version::Every)
                .get(),
        ),
    );
    let yaml = cook_pipeline(&pipeline).unwrap();
    assert!(yaml.contains("version: every"));
    let mut pin = Config::new();
    pin.insert("ref", "abcdef");
    let pipeline2 = Pipeline::new().append(
        Job::new("job").then(
            repo.as_get_resource()
                .with_version(Version::Custom(pin))
                .get(),
        ),
    );
    let yaml2 = cook_pipeline(&pipeline2).unwrap();
    assert!(yaml2.contains("version:\n      ref: abcdef"));
}
