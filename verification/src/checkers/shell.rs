use vstd::prelude::*;

use crate::checker::Checker;

verus! {

/// The checker for shell start-up files (`/etc/profile`, `/etc/profile.d/*`,
/// `~/.bashrc` and the like); it surveys nothing yet.
pub struct ShellChecker;

impl Checker for ShellChecker {
    fn name(&self) -> (r: &'static str)
        ensures
            r@ == "shell"@,
    {
        "shell"
    }
}

} // verus!
