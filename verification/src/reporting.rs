//! Records of the machine-readable experiment reports.
use vstd::prelude::*;

verus! {

/// One changed parameter, as reported.
#[derive(Debug, Clone)]
pub struct ParameterChange {
    pub path: String,
    pub old_value: String,
    pub new_value: String,
}

} // verus!
