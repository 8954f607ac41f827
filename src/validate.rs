//! Checks on the two inputs of a run, made before any file is touched.
use vstd::prelude::*;
use vstd::string::StrSliceExecFns;
use vstd::string::StringExecFns;

verus! {

/// Number of characters of a device identifier.
pub const DEVICE_ID_CHARS: usize = 36;

/// Why the inputs of a run were refused.
#[derive(Debug, Clone, Copy, PartialEq, Eq, Structural)]
pub enum ValidationError {
    /// The device identifier is not 36 characters long.
    InvalidDeviceId,
    /// The user index is empty.
    InvalidUserIdx,
}

/// The outcome of checking a device identifier and a user index.
pub open spec fn verify_spec(device_id: Seq<char>, user_idx: Seq<char>) -> Result<
    (),
    ValidationError,
> {
    if device_id.len() != DEVICE_ID_CHARS {
        Err(ValidationError::InvalidDeviceId)
    } else if user_idx.len() == 0 {
        Err(ValidationError::InvalidUserIdx)
    } else {
        Ok(())
    }
}

/// Accepts a device identifier of exactly 36 characters and a non-empty
/// user index; the device identifier is checked first.
pub fn verify(device_id: &str, user_idx: &str) -> (r: Result<(), ValidationError>)
    ensures
        r == verify_spec(device_id@, user_idx@),
{
    if device_id.unicode_len() != DEVICE_ID_CHARS {
        return Err(ValidationError::InvalidDeviceId);
    }
    if user_idx.is_empty() {
        return Err(ValidationError::InvalidUserIdx);
    }
    Ok(())
}

/// The name of a user's library folder: the user index after an
/// underscore.
pub fn user_folder_name(user_idx: &str) -> (r: String)
    ensures
        r@ == seq!['_'] + user_idx@,
{
    let mut r = String::from_str("_");
    proof {
        reveal_strlit("_");
    }
    r.append(user_idx);
    r
}

} // verus!
