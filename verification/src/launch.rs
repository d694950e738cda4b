//! The application launch service's bookkeeping: each launch attempt gets
//! a ticket naming the process-supervision scope the spawned process is to
//! be registered under.  Scope names are built deterministically from a
//! configured prefix, the application id and a monotonically increasing
//! counter, so no two attempts of one service ever share a scope.  The
//! actual spawn and the best-effort registration happen outside; their
//! outcomes are classified here.

use vstd::prelude::*;
use crate::text::clone_bytes;

verus! {

/// The decimal digit character for one value below ten.
pub open spec fn digit(d: nat) -> u8
    recommends
        d < 10,
{
    (48 + d) as u8
}

/// The decimal rendering of a number, most significant digit first.
pub open spec fn decimal(n: nat) -> Seq<u8>
    decreases n,
{
    if n < 10 {
        seq![digit(n)]
    } else {
        decimal(n / 10).push(digit(n % 10))
    }
}

/// A decimal rendering has at least one digit, and at least two from ten
/// upward.
pub proof fn lemma_decimal_len(n: nat)
    ensures
        decimal(n).len() >= 1,
        n >= 10 ==> decimal(n).len() >= 2,
    decreases n,
{
    if n >= 10 {
        lemma_decimal_len(n / 10);
    }
}

/// Distinct numbers render to distinct digit strings.
pub proof fn lemma_decimal_injective(a: nat, b: nat)
    requires
        a != b,
    ensures
        decimal(a) != decimal(b),
    decreases a + b,
{
    lemma_decimal_len(a);
    lemma_decimal_len(b);
    if a < 10 && b < 10 {
        if decimal(a) == decimal(b) {
            assert(decimal(a)[0] == decimal(b)[0]);
            assert(false);
        }
    } else if a < 10 || b < 10 {
        assert(decimal(a).len() != decimal(b).len());
    } else {
        if decimal(a) == decimal(b) {
            assert(decimal(a).last() == decimal(b).last());
            assert(a % 10 == b % 10);
            assert(decimal(a / 10).push(digit((a % 10) as nat)).drop_last() =~= decimal(a / 10));
            assert(decimal(b / 10).push(digit((b % 10) as nat)).drop_last() =~= decimal(b / 10));
            assert(decimal(a / 10) == decimal(b / 10));
            if a / 10 == b / 10 {
                assert(a == 10 * (a / 10) + a % 10);
                assert(b == 10 * (b / 10) + b % 10);
                assert(false);
            } else {
                lemma_decimal_injective(a / 10, b / 10);
                assert(false);
            }
        }
    }
}

/// Renders a number in decimal.
pub fn u64_to_decimal(n: u64) -> (r: Vec<u8>)
    ensures
        r@ == decimal(n as nat),
    decreases n,
{
    if n < 10 {
        let mut v: Vec<u8> = Vec::new();
        v.push(48 + n as u8);
        proof {
            assert(v@ =~= seq![digit(n as nat)]);
        }
        v
    } else {
        let mut r = u64_to_decimal(n / 10);
        r.push(48 + (n % 10) as u8);
        proof {
            assert(r@ =~= decimal((n / 10) as nat).push(digit((n % 10) as nat)));
        }
        r
    }
}

/// Whether a byte may stand unchanged in a scope unit name: ASCII letters,
/// digits, underscore and dot.
pub open spec fn unit_byte_ok(b: u8) -> bool {
    ||| 48 <= b <= 57
    ||| 65 <= b <= 90
    ||| 97 <= b <= 122
    ||| b == 95
    ||| b == 46
}

/// A byte as it appears in a scope unit name: kept when acceptable there,
/// replaced by an underscore otherwise.
pub open spec fn unit_byte(b: u8) -> u8 {
    if unit_byte_ok(b) {
        b
    } else {
        95
    }
}

/// An application id as embedded in a scope unit name.
pub open spec fn unit_escape(s: Seq<u8>) -> Seq<u8> {
    s.map_values(|b: u8| unit_byte(b))
}

/// Escapes an application id for use in a scope unit name.
pub fn escape_unit(s: &Vec<u8>) -> (r: Vec<u8>)
    ensures
        r@ == unit_escape(s@),
{
    let mut r: Vec<u8> = Vec::new();
    let mut i: usize = 0;
    while i < s.len()
        invariant
            i <= s@.len(),
            r@ == unit_escape(s@.take(i as int)),
        decreases s@.len() - i,
    {
        let b = s[i];
        let ok = (48 <= b && b <= 57) || (65 <= b && b <= 90) || (97 <= b && b <= 122) || b == 95
            || b == 46;
        if ok {
            r.push(b);
        } else {
            r.push(95);
        }
        proof {
            assert(unit_escape(s@.take(i + 1)) =~= unit_escape(s@.take(i as int)).push(
                unit_byte(s@[i as int]),
            ));
        }
        i += 1;
    }
    proof {
        assert(s@.take(s@.len() as int) =~= s@);
    }
    r
}

/// The `.scope` unit-name suffix.
pub open spec fn scope_suffix() -> Seq<u8> {
    seq![46u8, 115u8, 99u8, 111u8, 112u8, 101u8]
}

/// The supervision scope name of one launch attempt: the configured
/// prefix, the escaped application id and the attempt counter, joined by
/// dashes, with the `.scope` suffix.
pub open spec fn scope_unit_name(prefix: Seq<u8>, app_id: Seq<u8>, n: nat) -> Seq<u8> {
    prefix + seq![45u8] + unit_escape(app_id) + seq![45u8] + decimal(n) + scope_suffix()
}

/// With one prefix and one application, distinct attempt counters give
/// distinct scope names: the counter suffix keeps every launch attempt
/// distinguishable for the process supervisor.
pub proof fn lemma_scope_names_distinct(prefix: Seq<u8>, app_id: Seq<u8>, a: nat, b: nat)
    requires
        a != b,
    ensures
        scope_unit_name(prefix, app_id, a) != scope_unit_name(prefix, app_id, b),
{
    lemma_decimal_injective(a, b);
    lemma_decimal_len(a);
    lemma_decimal_len(b);
    let da = decimal(a);
    let db = decimal(b);
    let na = scope_unit_name(prefix, app_id, a);
    let nb = scope_unit_name(prefix, app_id, b);
    let base = prefix.len() + 1 + unit_escape(app_id).len() + 1;
    if da.len() == db.len() {
        assert(exists|k: int| 0 <= k < da.len() && da[k] != db[k]) by {
            if forall|k: int| 0 <= k < da.len() ==> da[k] == db[k] {
                assert(da =~= db);
            }
        }
        let k = choose|k: int| 0 <= k < da.len() && da[k] != db[k];
        assert(na[base + k] == da[k]);
        assert(nb[base + k] == db[k]);
        assert(na[base + k] != nb[base + k]);
    } else {
        assert(na.len() != nb.len());
    }
}

/// Builds the scope name of one launch attempt.
pub fn format_scope_name(prefix: &Vec<u8>, app_id: &Vec<u8>, n: u64) -> (r: Vec<u8>)
    ensures
        r@ == scope_unit_name(prefix@, app_id@, n as nat),
{
    let mut r = clone_bytes(prefix);
    r.push(45);
    let mut esc = escape_unit(app_id);
    r.append(&mut esc);
    r.push(45);
    let mut d = u64_to_decimal(n);
    r.append(&mut d);
    r.push(46);
    r.push(115);
    r.push(99);
    r.push(111);
    r.push(112);
    r.push(101);
    proof {
        assert(r@ =~= scope_unit_name(prefix@, app_id@, n as nat));
    }
    r
}

/// The scope naming configuration of the running service.
#[derive(Debug, Clone)]
pub struct ScopeSettings {
    pub prefix: Vec<u8>,
    pub started_by: Vec<u8>,
    pub documentation: Vec<Vec<u8>>,
}

/// One launch attempt, handed to the spawning side: which application,
/// which project path (if a specific project is to be opened), who started
/// it, and the scope the process is to be registered under.  Transient:
/// discarded once the process is registered or the attempt failed.
#[derive(Debug, Clone, PartialEq, Eq)]
pub struct LaunchTicket {
    pub app_id: Vec<u8>,
    pub project_path: Option<Vec<u8>>,
    pub started_by: Vec<u8>,
    pub scope_name: Vec<u8>,
}

/// The launch service's state: the attempt counter that keeps scope names
/// distinct.
pub struct LaunchService {
    counter: u64,
}

impl LaunchService {
    /// How many launch attempts have been ticketed.
    pub closed spec fn counter(&self) -> u64 {
        self.counter
    }

    /// A fresh launch service.
    pub fn new() -> (r: Self)
        ensures
            r.counter() == 0,
    {
        LaunchService { counter: 0 }
    }

    /// Issues the ticket for one launch attempt and advances the counter,
    /// so the next attempt gets a different scope name.
    pub fn next_ticket(
        &mut self,
        settings: &ScopeSettings,
        app_id: &Vec<u8>,
        project_path: Option<Vec<u8>>,
    ) -> (t: LaunchTicket)
        requires
            old(self).counter() < u64::MAX,
        ensures
            final(self).counter() == old(self).counter() + 1,
            t.app_id@ == app_id@,
            t.project_path == project_path,
            t.started_by@ == settings.started_by@,
            t.scope_name@ == scope_unit_name(
                settings.prefix@,
                app_id@,
                old(self).counter() as nat,
            ),
    {
        let scope_name = format_scope_name(&settings.prefix, app_id, self.counter);
        let t = LaunchTicket {
            app_id: clone_bytes(app_id),
            project_path,
            started_by: clone_bytes(&settings.started_by),
            scope_name,
        };
        self.counter = self.counter + 1;
        t
    }
}

/// How a launch attempt ended, seen from the caller: the spawn failed
/// (reported, non-fatal), or the process runs — with its scope registered,
/// or unregistered because registration is best-effort only and its
/// failure must not kill a process that already runs.
#[derive(Debug, Clone, Copy, PartialEq, Eq, Structural)]
pub enum LaunchStatus {
    Launched,
    LaunchedUnregistered,
    SpawnFailed,
}

/// Classifies the outcome of the spawn step and the registration step.
/// Only a failed spawn counts as a failed launch.
pub fn classify_launch(spawn_ok: bool, registered: bool) -> (r: LaunchStatus)
    ensures
        !spawn_ok ==> r == LaunchStatus::SpawnFailed,
        spawn_ok && registered ==> r == LaunchStatus::Launched,
        spawn_ok && !registered ==> r == LaunchStatus::LaunchedUnregistered,
{
    if !spawn_ok {
        LaunchStatus::SpawnFailed
    } else if registered {
        LaunchStatus::Launched
    } else {
        LaunchStatus::LaunchedUnregistered
    }
}

} // verus!
