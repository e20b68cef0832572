//! Reserved group ids.
use vstd::prelude::*;
use crate::users::GroupId;

verus! {

pub const SYSTEM: GroupId = 0;
pub const ADMIN: GroupId = 1;
pub const USERS: GroupId = 10;
pub const GUEST: GroupId = 254;
pub const NONE: GroupId = 255;

} // verus!
