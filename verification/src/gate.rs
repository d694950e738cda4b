//! The enable gate: the per-application flag saying whether the provider
//! is disabled, shared between the settings listener (writer) and the
//! actor (reader).  The surrounding process keeps it behind a lock.
//! Each call here says whether the lock attempt succeeded.
//! Reads fail open: a query must never hang or go dark
//! because the flag was momentarily unreachable.

use vstd::prelude::*;

verus! {

/// The disabled flag of one application.
pub struct EnableGate {
    disabled: bool,
}

impl EnableGate {
    /// Whether the application is currently marked disabled.
    pub closed spec fn view(&self) -> bool {
        self.disabled
    }

    /// A gate starts from the settings snapshot taken at startup.
    pub fn new(disabled: bool) -> (r: Self)
        ensures
            r.view() == disabled,
    {
        EnableGate { disabled }
    }

    /// The writer's update.  When the lock was acquired the flag takes the
    /// new value; when it was not, the update is dropped and the state
    /// remains whatever it was — a warning is the only observable effect.
    pub fn apply_set(&mut self, acquired: bool, disabled: bool)
        ensures
            acquired ==> final(self).view() == disabled,
            !acquired ==> final(self).view() == old(self).view(),
    {
        if acquired {
            self.disabled = disabled;
        }
    }

    /// The reader's view.  When the lock was acquired the stored flag
    /// answers; when it was not, the application counts as enabled (fail
    /// open) rather than blocking the query.
    pub fn read(&self, acquired: bool) -> (r: bool)
        ensures
            acquired ==> r == self.view(),
            !acquired ==> r == false,
    {
        if acquired {
            self.disabled
        } else {
            false
        }
    }
}

/// The settings listener's decision: an application is disabled exactly
/// when its id stands in the disabled-applications list of the latest
/// settings snapshot.
pub fn compute_disabled(disabled_apps: &Vec<Vec<u8>>, app_id: &Vec<u8>) -> (r: bool)
    ensures
        r == disabled_apps.deep_view().contains(app_id@),
{
    let mut i: usize = 0;
    let ghost dv = disabled_apps.deep_view();
    while i < disabled_apps.len()
        invariant
            i <= dv.len(),
            dv == disabled_apps.deep_view(),
            forall|k: int| 0 <= k < i ==> #[trigger] dv[k] != app_id@,
        decreases dv.len() - i,
    {
        if crate::text::bytes_eq(&disabled_apps[i], app_id) {
            proof {
                assert(dv[i as int] == app_id@);
            }
            return true;
        }
        proof {
            assert(dv[i as int] == disabled_apps@[i as int]@);
        }
        i += 1;
    }
    proof {
        assert forall|k: int| 0 <= k < dv.len() implies #[trigger] dv[k] != app_id@ by {}
    }
    false
}

} // verus!
