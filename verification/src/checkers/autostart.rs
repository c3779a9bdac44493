use vstd::prelude::*;

use crate::checker::Checker;

verus! {

/// The checker for XDG autostart entries (`.desktop` files run at desktop
/// login, in `/etc/xdg/autostart/` and `~/.config/autostart/`); it surveys
/// nothing yet.
pub struct AutostartChecker;

impl Checker for AutostartChecker {
    fn name(&self) -> (r: &'static str)
        ensures
            r@ == "autostart"@,
    {
        "autostart"
    }
}

} // verus!
