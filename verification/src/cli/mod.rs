//! Command-line options.
use vstd::prelude::*;

verus! {

/// The options the softphone is started with: whether to show the window,
/// and the name of the account to use.
#[derive(Debug, Clone)]
pub struct Cli {
    pub ui: bool,
    pub account: String,
}

} // verus!
