//! Profile: the components a user wants, keyed by canonical component id.
use vstd::prelude::*;
use crate::params::ParamValue;
use crate::strmap::StrMap;

verus! {

/// The components of a profile, keyed by canonical `source_id/name` id.
#[derive(Debug)]
pub struct Profile {
    pub components: StrMap<ProfileComponentConfig>,
}

/// The configuration of one profile component.
#[derive(Debug)]
pub struct ProfileComponentConfig {
    /// Parameter values, when any are given.
    pub params: Option<StrMap<ParamValue>>,
}

impl Default for ProfileComponentConfig {
    fn default() -> (r: Self)
        ensures
            r.params is None,
    {
        ProfileComponentConfig { params: None }
    }
}

} // verus!
