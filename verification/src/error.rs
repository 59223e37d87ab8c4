use vstd::prelude::*;

verus! {

/// The failure classes that model building and ceiling analysis can detect.
/// All of them are found statically, before any code is generated.
#[derive(Clone, Copy, Debug, PartialEq, Eq, Structural)]
pub enum ErrorKind {
    /// A required top-level configuration option is absent.
    MissingRequiredConfig,
    /// A task references a shared resource that its sub-application does not declare.
    UnresolvedResource,
    /// The same orphan reference, caught again during ceiling analysis.
    ResourceNotFound,
    /// Two tasks on the same core bind the same interrupt.
    DuplicateInterruptBinding,
    /// A task's declared core differs from the core of its sub-application.
    InvalidCoreAssignment,
}

/// A diagnostic tied to the offending declaration: `site` names the item the
/// error was found at, `detail` the identifier at fault.
#[derive(Debug)]
pub struct Diagnostic {
    pub kind: ErrorKind,
    pub site: String,
    pub detail: String,
}

impl Diagnostic {
    pub fn new(kind: ErrorKind, site: String, detail: String) -> (r: Self)
        ensures
            r.kind == kind,
            r.site == site,
            r.detail == detail,
    {
        Diagnostic { kind, site, detail }
    }
}

} // verus!
