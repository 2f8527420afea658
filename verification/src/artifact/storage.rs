//! Objects in the storage, as far as the store decides about them.

use vstd::prelude::*;

use crate::artifact::error::Error;
use crate::artifact::error::ErrorView;

verus! {

/// Why the storage did not describe an object: it has no such object, or something failed.
#[derive(Debug)]
pub struct HeadFault {
    pub not_found: bool,
    pub message: String,
}

/// Whether an object exists, given what the storage answered when asked to describe it. That
/// it has none is an answer; any other failure is an error.
pub fn object_exists(head: Result<(), HeadFault>) -> (r: Result<bool, Error>)
    ensures
        match head {
            Ok(_) => r == Ok::<bool, Error>(true),
            Err(fault) => if fault.not_found {
                r == Ok::<bool, Error>(false)
            } else {
                r matches Err(e) && e@ == ErrorView::Storage(fault.message@)
            },
        },
{
    match head {
        Ok(_) => Ok(true),
        Err(fault) => {
            if fault.not_found {
                Ok(false)
            } else {
                Err(Error::Storage(fault.message))
            }
        },
    }
}

} // verus!
