use typed_concourse::cook::cook_pipeline;
use typed_concourse::job::Job;
use typed_concourse::pipeline::Pipeline;
use typed_concourse::resource::Resource;
use typed_concourse::resource::ResourceTypes;
use typed_concourse::task::Command;
use typed_concourse::task::Task;
use typed_concourse::task::TaskResource;

#[test]
fn hello_world_example() {
    let pipeline = Pipeline::new().append(
        Job::new("job").with_public(true).then(
            Task::new()
                .with_name("simple-task")
                .run(&Command::new("echo", &["Hello world!"]))
                .unwrap()
                .to_step(),
        ),
    );

    assert_eq!(
        cook_pipeline(&pipeline).unwrap().as_str(),
        r#"jobs:
- name: job
  public: true
  plan:
  - task: simple-task
    config:
      platform: linux
      image_resource:
        type: registry-image
        source:
          repository: busybox
      run:
        path: echo
        args:
        - Hello world!
"#
    );
}

#[test]
fn serial_job_example() {
    let pipeline = Pipeline::new().append(
        Job::new("job").with_public(true).with_serial(true).then(
            Task::new()
                .with_name("simple-task")
                .mutate_task_config(|task_config| {
                    task_config.run(&Command::new("echo", &["Hello world!"]))
                })
                .unwrap()
                .to_step(),
        ),
    );

    assert_eq!(
        cook_pipeline(&pipeline).unwrap().as_str(),
        r#"jobs:
- name: job
  public: true
  serial: true
  plan:
  - task: simple-task
    config:
      platform: linux
      image_resource:
        type: registry-image
        source:
          repository: busybox
      run:
        path: echo
        args:
        - Hello world!
"#
    );
}

#[test]
fn pipeline_vars_example() {
    let pipeline = Pipeline::new()
        .append(
            Job::new("((first))-job").with_public(true).then(
                Task::new()
                    .with_name("simple-task")
                    .run(&Command::new("echo", &["Hello, ((hello))!"]))
                    .unwrap()
                    .to_step(),
            ),
        )
        .append(
            Job::new("level-((number))-job").with_public(true).then(
                Task::new()
                    .with_name("simple-task")
                    .run(&Command::new("echo", &["Hello, ((hello))!"]))
                    .unwrap()
                    .to_step(),
            ),
        );

    assert_eq!(
        cook_pipeline(&pipeline).unwrap().as_str(),
        r#"jobs:
- name: ((first))-job
  public: true
  plan:
  - task: simple-task
    config:
      platform: linux
      image_resource:
        type: registry-image
        source:
          repository: busybox
      run:
        path: echo
        args:
        - Hello, ((hello))!
- name: level-((number))-job
  public: true
  plan:
  - task: simple-task
    config:
      platform: linux
      image_resource:
        type: registry-image
        source:
          repository: busybox
      run:
        path: echo
        args:
        - Hello, ((hello))!
"#
    );
}

#[test]
fn time_trigger_example() {
    let every_30s = Resource::time("30s");
    let pipeline = Pipeline::new().append(
        Job::new("job")
            .with_public(true)
            .then(every_30s.as_get_resource().with_trigger(true).get())
            .then(
                Task::new()
                    .with_name("simple-task")
                    .run(&Command::new("echo", &["Hello, world!"]))
                    .unwrap()
                    .to_step(),
            ),
    );

    assert_eq!(
        cook_pipeline(&pipeline).unwrap().as_str(),
        r#"jobs:
- name: job
  public: true
  plan:
  - get: every-30s
    trigger: true
  - task: simple-task
    config:
      platform: linux
      image_resource:
        type: registry-image
        source:
          repository: busybox
      run:
        path: echo
        args:
        - Hello, world!
resources:
- name: every-30s
  type: time
  icon: clock-outline
  source:
    interval: 30s
"#
    );
}

#[test]
fn git_trigger_example() {
    let concourse_docs_git = Resource::git("https://github.com/concourse/docs", "")
        .unwrap()
        .with_name("concourse-docs-git")
        .with_trigger(true);
    let pipeline = Pipeline::new().append(
        Job::new("job").then(
            Task::new()
                .with_name("list-files")
                .with_inputs(&[&concourse_docs_git.as_task_input_resource()])
                .unwrap()
                .run(&Command::new("ls", &["./concourse-docs-git"]))
                .unwrap()
                .to_step(),
        ),
    );

    assert_eq!(
        cook_pipeline(&pipeline).unwrap(),
        r#"jobs:
- name: job
  plan:
  - in_parallel:
    - get: concourse-docs-git
      trigger: true
  - task: list-files
    config:
      platform: linux
      image_resource:
        type: registry-image
        source:
          repository: busybox
      run:
        path: ls
        args:
        - ./concourse-docs-git
      inputs:
      - name: concourse-docs-git
resources:
- name: concourse-docs-git
  type: git
  icon: github
  source:
    uri: https://github.com/concourse/docs
"#
    );
}

#[test]
fn hooks_example() {
    let echo = |what: &str, state: &str| {
        Command::new("echo", &[format!("This {} was {}!", what, state).as_str()])
    };

    let pipeline = Pipeline::new().append(
        Job::new("job")
            .with_public(true)
            .on_success(
                Task::new()
                    .with_name("job-success")
                    .run(&echo("job", "succeeded"))
                    .unwrap()
                    .to_step(),
            )
            .on_error(
                Task::new()
                    .with_name("job-failure")
                    .run(&echo("job", "failed"))
                    .unwrap()
                    .to_step(),
            )
            .on_abort(
                Task::new()
                    .with_name("job-aborted")
                    .run(&echo("job", "aborted"))
                    .unwrap()
                    .to_step(),
            )
            .then(
                Task::new()
                    .with_name("successful-task")
                    .run(&Command::new("sh", &["-lc", "exit 0"]))
                    .unwrap()
                    .on_success(
                        Task::new()
                            .with_name("task-success")
                            .run(&echo("task", "succeeded"))
                            .unwrap()
                            .to_step(),
                    )
                    .on_abort(
                        Task::new()
                            .with_name("task-aborted")
                            .run(&echo("task", "aborted"))
                            .unwrap()
                            .to_step(),
                    )
                    .to_step(),
            )
            .then(
                Task::new()
                    .with_name("failing-task")
                    .run(&Command::new("sh", &["-lc", "exit 1"]))
                    .unwrap()
                    .on_failure(
                        Task::new()
                            .with_name("task-failure")
                            .run(&echo("task", "failed"))
                            .unwrap()
                            .to_step(),
                    )
                    .to_step(),
            ),
    );

    let expected = format!(
        r#"jobs:
- name: job
  public: true
  plan:
  - task: successful-task
    config:
      platform: linux
      image_resource:
        type: registry-image
        source:
          repository: busybox
      run:
        path: sh
        args:
        - -lc
        - exit 0
    on_abort:
      task: task-aborted
      config:
        platform: linux
        image_resource:
          type: registry-image
          source:
            repository: busybox
        run:
          path: echo
          args:
          - This {0} was aborted!
    on_success:
      task: task-success
      config:
        platform: linux
        image_resource:
          type: registry-image
          source:
            repository: busybox
        run:
          path: echo
          args:
          - This {0} was succeeded!
  - task: failing-task
    config:
      platform: linux
      image_resource:
        type: registry-image
        source:
          repository: busybox
      run:
        path: sh
        args:
        - -lc
        - exit 1
    on_failure:
      task: task-failure
      config:
        platform: linux
        image_resource:
          type: registry-image
          source:
            repository: busybox
        run:
          path: echo
          args:
          - This {0} was failed!
  on_error:
    task: job-failure
    config:
      platform: linux
      image_resource:
        type: registry-image
        source:
          repository: busybox
      run:
        path: echo
        args:
        - This job was failed!
  on_abort:
    task: job-aborted
    config:
      platform: linux
      image_resource:
        type: registry-image
        source:
          repository: busybox
      run:
        path: echo
        args:
        - This job was aborted!
  on_success:
    task: job-success
    config:
      platform: linux
      image_resource:
        type: registry-image
        source:
          repository: busybox
      run:
        path: echo
        args:
        - This job was succeeded!
"#,
        "task"
    );
    assert_eq!(cook_pipeline(&pipeline).unwrap(), expected);
}

#[test]
fn fetching_and_using_an_image() {
    let golang_image = Resource::registry_image("golang").with_source(&[("tag", "1.17")]);
    let pipeline = Pipeline::new().append(
        Job::new("fetch-and-run-image").then(
            Task::new()
                .with_name("use-fetched-image-in-task")
                .with_image(golang_image.as_task_image_resource())
                .run(&Command::new("go", &["version"]))
                .unwrap()
                .to_step(),
        ),
    );

    assert_eq!(
        cook_pipeline(&pipeline).unwrap(),
        r#"jobs:
- name: fetch-and-run-image
  plan:
  - in_parallel:
    - get: golang
  - task: use-fetched-image-in-task
    config:
      platform: linux
      run:
        path: go
        args:
        - version
    image: golang
resources:
- name: golang
  type: registry-image
  icon: docker
  source:
    repository: golang
    tag: '1.17'
"#
    );
}

#[test]
fn task_inputs_outputs_example() {
    let files = TaskResource::output("files");
    let pipeline = Pipeline::new().append(
        Job::new("create-and-consume")
            .then(
                Task::new()
                    .with_name("make-a-file")
                    .run(&Command::new(
                        "sh",
                        &[
                            "-exc",
                            "ls -la; echo \"Create a file on $(date)\" > ./files/created_file",
                        ],
                    ))
                    .unwrap()
                    .with_outputs(&[&files])
                    .unwrap()
                    .to_step(),
            )
            .then(
                Task::new()
                    .with_name("consume-the-file")
                    .run(&Command::new("cat", &["./files/created_file"]))
                    .unwrap()
                    .with_inputs(&[&files])
                    .unwrap()
                    .to_step(),
            ),
    );

    assert_eq!(
        cook_pipeline(&pipeline).unwrap(),
        r#"jobs:
- name: create-and-consume
  plan:
  - task: make-a-file
    config:
      platform: linux
      image_resource:
        type: registry-image
        source:
          repository: busybox
      run:
        path: sh
        args:
        - -exc
        - ls -la; echo "Create a file on $(date)" > ./files/created_file
      outputs:
      - name: files
  - task: consume-the-file
    config:
      platform: linux
      image_resource:
        type: registry-image
        source:
          repository: busybox
      run:
        path: cat
        args:
        - ./files/created_file
      inputs:
      - name: files
"#
    );
}

#[test]
fn generic_task_input_names() {
    let mock = ResourceTypes::new("mock", ResourceTypes::RegistryImage);
    let repo = Resource::new("repo", &mock);
    let repo_dev = Resource::new("repo-dev", &mock);
    let ci = Resource::git("https://github.com/concourse/examples.git", "")
        .unwrap()
        .with_name("ci");

    let pipeline = Pipeline::new().append(
        Job::new("task-input-mapping").then(
            Task::from_file("ci/tasks/generic-inputs.yml")
                .with_name("list-inputs")
                .with_inputs(&[
                    &ci.as_task_input_resource(),
                    &repo.as_task_input_resource().map_to("main").unwrap(),
                    &repo_dev.as_task_input_resource().map_to("dev").unwrap(),
                ])
                .unwrap()
                .to_step(),
        ),
    );

    assert_eq!(
        cook_pipeline(&pipeline).unwrap(),
        r#"jobs:
- name: task-input-mapping
  plan:
  - in_parallel:
    - get: ci
    - get: repo
    - get: repo-dev
  - task: list-inputs
    file: ci/tasks/generic-inputs.yml
    input_mapping:
      dev: repo-dev
      main: repo
resources:
- name: ci
  type: git
  icon: github
  source:
    uri: https://github.com/concourse/examples.git
- name: repo
  type: mock
- name: repo-dev
  type: mock
resource_types:
- name: mock
  type: registry-image
"#
    );
}
