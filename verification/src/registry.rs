//! The provider registry: built once at startup from the applications
//! found installed, it maps each application id to the object path its
//! provider is served at, and lists all of them for discovery.  It is
//! read-only for the process lifetime: no application appears or
//! disappears while the service runs.

use vstd::prelude::*;
use crate::text::{bytes_eq, clone_bytes};

verus! {

/// Whether a byte may stand unchanged in an object-path element: ASCII
/// letters, digits and underscore.
pub open spec fn path_byte_ok(b: u8) -> bool {
    ||| 48 <= b <= 57
    ||| 65 <= b <= 90
    ||| 97 <= b <= 122
    ||| b == 95
}

/// A byte as it appears in an object-path element: kept when acceptable
/// there, replaced by an underscore otherwise.
pub open spec fn path_byte(b: u8) -> u8 {
    if path_byte_ok(b) {
        b
    } else {
        95
    }
}

/// An application id as embedded in an object path.
pub open spec fn path_escape(s: Seq<u8>) -> Seq<u8> {
    s.map_values(|b: u8| path_byte(b))
}

/// The object path one application's provider is served at:
/// `/<namespace>/<escaped application id>`.
pub open spec fn object_path(namespace: Seq<u8>, app_id: Seq<u8>) -> Seq<u8> {
    seq![47u8] + namespace + seq![47u8] + path_escape(app_id)
}

/// Escapes an application id for use as an object-path element.
pub fn escape_path_element(s: &Vec<u8>) -> (r: Vec<u8>)
    ensures
        r@ == path_escape(s@),
{
    let mut r: Vec<u8> = Vec::new();
    let mut i: usize = 0;
    while i < s.len()
        invariant
            i <= s@.len(),
            r@ == path_escape(s@.take(i as int)),
        decreases s@.len() - i,
    {
        let b = s[i];
        let ok = (48 <= b && b <= 57) || (65 <= b && b <= 90) || (97 <= b && b <= 122) || b == 95;
        if ok {
            r.push(b);
        } else {
            r.push(95);
        }
        proof {
            assert(path_escape(s@.take(i + 1)) =~= path_escape(s@.take(i as int)).push(
                path_byte(s@[i as int]),
            ));
        }
        i += 1;
    }
    proof {
        assert(s@.take(s@.len() as int) =~= s@);
    }
    r
}

/// Builds the object path for one application.
pub fn format_object_path(namespace: &Vec<u8>, app_id: &Vec<u8>) -> (r: Vec<u8>)
    ensures
        r@ == object_path(namespace@, app_id@),
{
    let mut r: Vec<u8> = Vec::new();
    r.push(47);
    let mut ns = clone_bytes(namespace);
    r.append(&mut ns);
    r.push(47);
    let mut el = escape_path_element(app_id);
    r.append(&mut el);
    proof {
        assert(r@ =~= object_path(namespace@, app_id@));
    }
    r
}

/// One discoverable provider: an installed application's id and the
/// object path its provider answers at.
#[derive(Debug, Clone, PartialEq, Eq)]
pub struct ProviderEntry {
    pub app_id: Vec<u8>,
    pub object_path: Vec<u8>,
}

/// The registry of all active providers, in the order the applications
/// were discovered.
pub struct ServiceRegistry {
    pub entries: Vec<ProviderEntry>,
}

impl ServiceRegistry {
    /// Builds the registry from the ids of the applications found
    /// installed: one entry per application, in the given order, each at
    /// its own object path under the namespace.
    pub fn build(namespace: &Vec<u8>, installed: &Vec<Vec<u8>>) -> (r: Self)
        ensures
            r.entries@.len() == installed.deep_view().len(),
            forall|k: int| 0 <= k < installed.deep_view().len() ==> {
                &&& (#[trigger] r.entries@[k]).app_id@ == installed.deep_view()[k]
                &&& r.entries@[k].object_path@ == object_path(namespace@, installed.deep_view()[k])
            },
    {
        let ghost dv = installed.deep_view();
        let mut entries: Vec<ProviderEntry> = Vec::new();
        let mut i: usize = 0;
        while i < installed.len()
            invariant
                i <= dv.len(),
                dv == installed.deep_view(),
                entries@.len() == i,
                forall|k: int| 0 <= k < i ==> {
                    &&& (#[trigger] entries@[k]).app_id@ == dv[k]
                    &&& entries@[k].object_path@ == object_path(namespace@, dv[k])
                },
            decreases dv.len() - i,
        {
            let id = &installed[i];
            let entry = ProviderEntry {
                app_id: clone_bytes(id),
                object_path: format_object_path(namespace, id),
            };
            entries.push(entry);
            proof {
                assert(dv[i as int] == installed@[i as int]@);
            }
            i += 1;
        }
        ServiceRegistry { entries }
    }

    /// Position of the first entry for the given application id, if any:
    /// how an incoming call is routed to its application's mailbox.
    pub fn find(&self, app_id: &Vec<u8>) -> (r: Option<usize>)
        ensures
            match r {
                Some(k) => {
                    &&& 0 <= k < self.entries@.len()
                    &&& self.entries@[k as int].app_id@ == app_id@
                    &&& forall|j: int| 0 <= j < k ==> (#[trigger] self.entries@[j].app_id@)
                        != app_id@
                },
                None => forall|j: int| 0 <= j < self.entries@.len() ==> (
                #[trigger] self.entries@[j].app_id@) != app_id@,
            },
    {
        let mut i: usize = 0;
        while i < self.entries.len()
            invariant
                i <= self.entries@.len(),
                forall|j: int| 0 <= j < i ==> (#[trigger] self.entries@[j].app_id@) != app_id@,
            decreases self.entries@.len() - i,
        {
            if bytes_eq(&self.entries[i].app_id, app_id) {
                return Some(i);
            }
            i += 1;
        }
        None
    }
}

} // verus!
