//! Starting the reader at login: bringing the system's registration in line
//! with the setting.
use vstd::prelude::*;

verus! {

/// What to do with the login registration.
#[derive(Debug, Clone, Copy, PartialEq, Eq, Structural)]
pub enum AutostartAction {
    Enable,
    Disable,
    Keep,
}

/// The change that makes the registration match the setting: enable it when
/// wanted and absent, disable it when present and unwanted, otherwise keep.
pub fn autostart_action(wanted: bool, registered: bool) -> (a: AutostartAction)
    ensures
        a == (if wanted && !registered {
            AutostartAction::Enable
        } else if !wanted && registered {
            AutostartAction::Disable
        } else {
            AutostartAction::Keep
        }),
{
    if wanted {
        if !registered {
            AutostartAction::Enable
        } else {
            AutostartAction::Keep
        }
    } else if registered {
        AutostartAction::Disable
    } else {
        AutostartAction::Keep
    }
}

/// Applying the action leaves the registration as the setting asks.
pub proof fn lemma_autostart_converges(wanted: bool, registered: bool)
    ensures
        ({
            let a = if wanted && !registered {
                AutostartAction::Enable
            } else if !wanted && registered {
                AutostartAction::Disable
            } else {
                AutostartAction::Keep
            };
            let after = match a {
                AutostartAction::Enable => true,
                AutostartAction::Disable => false,
                AutostartAction::Keep => registered,
            };
            after == wanted
        }),
{
}

} // verus!
