//! `NSDate`.

use crate::environment::Environment;
use crate::frameworks::HostObject;
use crate::objc::{id, ObjCError};
use std::time::SystemTime;
use vstd::prelude::*;

verus! {

/// `std::time::SystemTime`: a point in time of the host's clock. Nothing
/// is claimed of it; the library carries such values and never looks inside.
#[verifier::external_type_specification]
#[verifier::external_body]
pub struct ExSystemTime(SystemTime);

/// The host side of a date.
pub struct NSDateHostObject {
    pub instant: SystemTime,
}

/// Why a date could not be read.
#[derive(Clone, Copy, Debug, PartialEq, Eq, Structural)]
pub enum DateError {
    /// The runtime refused to find the object.
    ObjC(ObjCError),
    /// The object is no date.
    NotADate,
}

/// What asking an object for its date is answered with.
pub open spec fn date_of(env: &Environment, date: id) -> Result<SystemTime, DateError> {
    if !env.objc.is_object(date) {
        Err(DateError::ObjC(ObjCError::NotFound))
    } else {
        match env.objc.objects()[date.addr].host_object {
            HostObject::Date(host_object) => Ok(host_object.instant),
            _ => Err(DateError::NotADate),
        }
    }
}

/// The point in time that a date stands for.
pub fn to_date(env: &Environment, date: id) -> (res: Result<SystemTime, DateError>)
    ensures
        res == date_of(env, date),
{
    match env.objc.borrow(date) {
        Ok(host_object) => match host_object {
            HostObject::Date(date) => Ok(date.instant),
            _ => Err(DateError::NotADate),
        },
        Err(e) => Err(DateError::ObjC(e)),
    }
}

} // verus!
