//! What a run is asked to do.

use vstd::prelude::*;

verus! {

/// The settings of one run: whose commits to count, between which dates, in
/// which repositories, and whether to list the commits one by one.
#[derive(Debug)]
pub struct Args {
    pub author: String,
    pub since: Option<String>,
    pub until: Option<String>,
    pub breakdown: bool,
    pub repos: Vec<String>,
}

} // verus!
