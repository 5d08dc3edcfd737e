//! The error type surfaced to callers.

use vstd::prelude::*;

verus! {

/// Everything that can go wrong while cooking or rendering a pipeline.
#[derive(Debug)]
pub enum Errors {
    /// The pipeline or a builder call violates a validation rule.
    CookError(String),
    /// The normalized structure holds a form the renderer does not emit.
    RenderError(String),
}

impl Errors {
    /// Wraps a validation message.
    pub fn from(detail: &str) -> (r: Errors)
        ensures
            r matches Errors::CookError(m) && m@ == detail@,
    {
        let mut m = String::new();
        m.append(detail);
        proof {
            assert(m@ =~= detail@);
        }
        Errors::CookError(m)
    }

    /// A human-readable description of the error.
    pub fn message(&self) -> (r: String)
        ensures
            self matches Errors::CookError(m)
                ==> r@ == "Cannot cook concourse configuration:\n"@ + m@,
            self matches Errors::RenderError(m)
                ==> r@ == "Cannot cook concourse configuration due to render error:\n"@ + m@,
    {
        match self {
            Errors::CookError(m) => {
                let mut r = String::new();
                r.append("Cannot cook concourse configuration:\n");
                r.append(m.as_str());
                proof {
                    assert(r@ =~= "Cannot cook concourse configuration:\n"@ + m@);
                }
                r
            }
            Errors::RenderError(m) => {
                let mut r = String::new();
                r.append("Cannot cook concourse configuration due to render error:\n");
                r.append(m.as_str());
                proof {
                    assert(r@ =~= "Cannot cook concourse configuration due to render error:\n"@ + m@);
                }
                r
            }
        }
    }
}

} // verus!
