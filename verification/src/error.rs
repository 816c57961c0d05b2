//! The failures that the operations of the manager report.

use vstd::prelude::*;

verus! {

/// Why an operation on the pool, the ledger or the refresh was refused.
#[derive(Clone, Copy, Debug, PartialEq, Eq, Structural)]
pub enum ManagerError {
    /// The credential is already known to the pool, as active or as retired.
    AlreadyExists,
    /// The credential is not active.
    NotFound,
    /// No credential is active, so none can be assigned.
    NoKeysAvailable,
    /// The pick handed in for an assignment is no active credential.
    SelectionFailed,
    /// No credential for the billing endpoint is configured.
    AdminKeyMissing,
    /// The address of a request is no URL.
    InvalidUrl,
    /// The clock reading has no calendar date.
    ClockOutOfRange,
}

impl ManagerError {
    /// The sentence that tells a person of this failure.
    pub fn message(&self) -> (text: String)
        ensures
            text@ == match *self {
                ManagerError::AlreadyExists => "API key already exists"@,
                ManagerError::NotFound => "API key not found"@,
                ManagerError::NoKeysAvailable => "No active API keys available"@,
                ManagerError::SelectionFailed => "Failed to select random key"@,
                ManagerError::AdminKeyMissing => "Admin API key not configured"@,
                ManagerError::InvalidUrl => "Invalid URL"@,
                ManagerError::ClockOutOfRange => "Clock out of range"@,
            },
    {
        match self {
            ManagerError::AlreadyExists => "API key already exists".to_owned(),
            ManagerError::NotFound => "API key not found".to_owned(),
            ManagerError::NoKeysAvailable => "No active API keys available".to_owned(),
            ManagerError::SelectionFailed => "Failed to select random key".to_owned(),
            ManagerError::AdminKeyMissing => "Admin API key not configured".to_owned(),
            ManagerError::InvalidUrl => "Invalid URL".to_owned(),
            ManagerError::ClockOutOfRange => "Clock out of range".to_owned(),
        }
    }
}

} // verus!
