//! Session-start decisions around model availability.
//!
//! At startup the backend is probed for the configured model and then asked
//! to provision it unconditionally, to pick up updates. These functions hold
//! the decisions: how a probe status is read, and when a failed provisioning
//! attempt is fatal.

use vstd::prelude::*;

verus! {

/// What the model existence probe found.
#[derive(Clone, Copy, Debug, PartialEq, Eq, Structural)]
pub enum ModelProbe {
    /// The model is present locally.
    Present,
    /// The model is not present (yet); provisioning must succeed.
    Absent,
    /// The probe itself failed; the run cannot start.
    Error,
}

/// Read the HTTP status of the model existence probe: any success status
/// means the model is present, 404 means it is absent, and anything else is
/// a probe failure.
pub fn classify_probe_status(status: u16) -> (r: ModelProbe)
    ensures
        r == ModelProbe::Present <==> 200 <= status < 300,
        r == ModelProbe::Absent <==> status == 404,
        r == ModelProbe::Error <==> !(200 <= status < 300) && status != 404,
{
    if 200 <= status && status < 300 {
        ModelProbe::Present
    } else if status == 404 {
        ModelProbe::Absent
    } else {
        ModelProbe::Error
    }
}

/// Whether a failed provisioning attempt ends the run: it is fatal exactly
/// when the model was not already present, since a model that was usable
/// before the attempt is still usable after it.
pub fn pull_failure_fatal(model_existed: bool, pull_failed: bool) -> (fatal: bool)
    ensures
        fatal == (pull_failed && !model_existed),
{
    pull_failed && !model_existed
}

} // verus!
