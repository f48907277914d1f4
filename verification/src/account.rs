//! A stored login: which server to talk to and the cookies that prove the
//! session.
//!
//! Reading an account from a configuration file is the surrounding
//! program's job; this layer takes the parsed values.
use vstd::prelude::*;

verus! {

/// A stored login, as key/value cookie pairs plus a server number.
pub struct AccountInfo {
    pub server: usize,
    pub cookies: Vec<(String, String)>,
}

} // verus!
