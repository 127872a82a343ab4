use vstd::prelude::*;

verus! {

/// The parameters of one connection profile, as supplied by the caller.
///
/// All string fields are untrusted input: when a connection target is built
/// from them, each one is percent-encoded so that reserved characters cannot
/// corrupt the target's structure. The `id` and `name` fields are for display
/// and correlation only; the probe itself never reads them.
#[derive(Debug, Clone)]
pub struct ConnectionConfig {
    pub id: Option<String>,
    pub name: String,
    pub host: String,
    pub port: u16,
    pub database: String,
    pub username: String,
    pub password: String,
    pub ssl: bool,
}

/// The verdict of one connectivity probe.
///
/// `error` carries the underlying driver's error text verbatim; it is present
/// exactly when the probe did not succeed, so a serialized result can
/// distinguish "no error" from "empty error text".
#[derive(Debug)]
pub struct ConnectionTestResult {
    pub success: bool,
    pub message: String,
    pub error: Option<String>,
}

impl ConnectionTestResult {
    /// Diagnostic detail is carried if and only if the probe failed.
    pub open spec fn wf(self) -> bool {
        self.success <==> self.error is None
    }
}

} // verus!
