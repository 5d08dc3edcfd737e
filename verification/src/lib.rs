//! A typed builder, normalizer and renderer for continuous-integration
//! pipeline configuration documents.
//!
//! A pipeline is assembled in memory from jobs, steps, resources and tasks,
//! then cooked: the step tree is walked, every resource that a step or a task
//! needs is discovered, implicit fetch steps are injected where a resource is
//! not yet available in the job's scope, and the deduplicated resource and
//! resource-type declarations are attached to the pipeline. The cooked
//! pipeline is finally rendered as a YAML document for the external executor.
//!
//! The builders cover git, time-interval, registry-image and custom
//! resources; tasks come with a Linux default configuration. No docker-image
//! resource constructor and no Windows or Darwin default configurations are
//! offered.

pub mod cook;
pub mod errors;
pub mod get;
pub mod job;
pub mod laws;
pub mod model;
pub mod pipeline;
pub mod put;
pub mod render;
pub mod resource;
pub mod schema;
pub mod step;
pub mod task;
pub mod textutil;
