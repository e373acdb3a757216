use vstd::prelude::*;

use crate::types::PROFILE_COUNT;
use crate::types::lemma_filter_elems;

use rand::Rng;

verus! {

/// A detached handle standing for one outbound client: the impersonation
/// profile it was built with and the cookie jar it is bound to.  The heavy
/// client object itself lives outside the library; callers resolve the jar
/// identifier to the shared jar and build the client from the profile,
/// with the fixed configuration `client_config` gives.
#[derive(Clone, Copy)]
pub struct ClientHandle {
    pub profile: usize,
    pub jar: u64,
}

/// Every outbound request gets 30 seconds in total.
pub const CLIENT_REQUEST_TIMEOUT_MS: u64 = 30 * 1000;

/// Every outbound connection attempt gets 10 seconds.
pub const CLIENT_CONNECT_TIMEOUT_MS: u64 = 10 * 1000;

/// The configuration every outbound client is built with.  Only the
/// impersonation profile and the jar vary per session; the rest is fixed:
/// the proxy deliberately accepts invalid upstream certificates (its role
/// is interception, not verification) and never routes through a system
/// proxy.
#[derive(Clone, Copy, Debug)]
pub struct OutboundClientConfig {
    pub request_timeout_ms: u64,
    pub connect_timeout_ms: u64,
    pub accept_invalid_certs: bool,
    pub use_system_proxy: bool,
}

pub fn client_config() -> (r: OutboundClientConfig)
    ensures
        r.request_timeout_ms == CLIENT_REQUEST_TIMEOUT_MS,
        r.connect_timeout_ms == CLIENT_CONNECT_TIMEOUT_MS,
        r.accept_invalid_certs,
        !r.use_system_proxy,
{
    OutboundClientConfig {
        request_timeout_ms: CLIENT_REQUEST_TIMEOUT_MS,
        connect_timeout_ms: CLIENT_CONNECT_TIMEOUT_MS,
        accept_invalid_certs: true,
        use_system_proxy: false,
    }
}

/// One per-host session: the current client, the profile it impersonates,
/// the time of last use (unix milliseconds) and the shared cookie jar.
#[derive(Clone, Copy)]
pub struct Session {
    pub client: ClientHandle,
    pub profile: usize,
    pub last_used: u64,
    pub cookie_jar: u64,
}

/// Mathematical image of one session.
pub struct SessionV {
    pub profile: int,
    pub last_used: int,
    pub jar: int,
}

/// Sessions are idle-evicted after 30 minutes without use.
pub const SESSION_IDLE_MS: u64 = 30 * 60 * 1000;

/// The eviction sweep runs every 5 minutes.
pub const GC_PERIOD_MS: u64 = 5 * 60 * 1000;

/// The mathematical image of the whole table: hosts in insertion order, each
/// with its session.
pub open spec fn entry_v(p: (String, Session)) -> (Seq<char>, SessionV) {
    (p.0@, SessionV { profile: p.1.profile as int, last_used: p.1.last_used as int, jar: p.1.cookie_jar as int })
}

/// Index of the entry for host `h`, or -1 when absent.
pub open spec fn spec_find(t: Seq<(Seq<char>, SessionV)>, h: Seq<char>) -> int
    decreases t.len(),
{
    if t.len() == 0 {
        -1
    } else if t[0].0 == h {
        0
    } else {
        let r = spec_find(t.drop_first(), h);
        if r == -1 { -1 } else { r + 1 }
    }
}

pub open spec fn spec_live(s: SessionV, now: int) -> bool {
    now - s.last_used < SESSION_IDLE_MS
}

/// Rotation on an existing entry: a new profile and timestamp, the same jar.
pub open spec fn spec_rotate(s: SessionV, now: int, profile: int) -> SessionV {
    SessionV { profile: profile, last_used: now, jar: s.jar }
}

pub open spec fn spec_fresh(now: int, profile: int, jar: int) -> SessionV {
    SessionV { profile: profile, last_used: now, jar: jar }
}

/// Get-or-create-and-rotate, as one step on the table model.
pub open spec fn spec_acquire(
    t: Seq<(Seq<char>, SessionV)>,
    h: Seq<char>,
    now: int,
    profile: int,
    fresh_jar: int,
) -> Seq<(Seq<char>, SessionV)> {
    let i = spec_find(t, h);
    if i >= 0 {
        t.update(i, (h, spec_rotate(t[i].1, now, profile)))
    } else {
        t.push((h, spec_fresh(now, profile, fresh_jar)))
    }
}

/// Idle eviction on the table model.
pub open spec fn spec_cleanup(t: Seq<(Seq<char>, SessionV)>, now: int) -> Seq<(Seq<char>, SessionV)> {
    t.filter(|p: (Seq<char>, SessionV)| spec_live(p.1, now))
}

pub open spec fn unique_hosts(t: Seq<(Seq<char>, SessionV)>) -> bool {
    forall|i: int, j: int|
        0 <= i < t.len() && 0 <= j < t.len() && i != j ==> (#[trigger] t[i]).0 != (#[trigger] t[j]).0
}

pub open spec fn jars_below(t: Seq<(Seq<char>, SessionV)>, bound: int) -> bool {
    forall|i: int| 0 <= i < t.len() ==> (#[trigger] t[i]).1.jar < bound
}

pub open spec fn spec_jar_of(t: Seq<(Seq<char>, SessionV)>, h: Seq<char>) -> int {
    t[spec_find(t, h)].1.jar
}

pub open spec fn spec_profile_of(t: Seq<(Seq<char>, SessionV)>, h: Seq<char>) -> int {
    t[spec_find(t, h)].1.profile
}

pub proof fn lemma_find_spec(t: Seq<(Seq<char>, SessionV)>, h: Seq<char>)
    ensures
        spec_find(t, h) == -1 || (0 <= spec_find(t, h) < t.len()),
        spec_find(t, h) == -1 ==> forall|i: int| 0 <= i < t.len() ==> (#[trigger] t[i]).0 != h,
        spec_find(t, h) >= 0 ==> t[spec_find(t, h)].0 == h,
    decreases t.len(),
{
    if t.len() == 0 {
    } else if t[0].0 == h {
    } else {
        lemma_find_spec(t.drop_first(), h);
        if spec_find(t, h) == -1 {
            assert forall|i: int| 0 <= i < t.len() implies (#[trigger] t[i]).0 != h by {
                if i > 0 {
                    assert(t.drop_first()[i - 1] == t[i]);
                }
            }
        }
    }
}

pub proof fn lemma_find_unique(t: Seq<(Seq<char>, SessionV)>, h: Seq<char>, i: int)
    requires
        0 <= i < t.len(),
        t[i].0 == h,
        forall|j: int| 0 <= j < i ==> (#[trigger] t[j]).0 != h,
    ensures
        spec_find(t, h) == i,
    decreases t.len(),
{
    if i == 0 {
    } else {
        assert(t[0].0 != h);
        assert(forall|j: int|
            0 <= j < t.drop_first().len() ==> #[trigger] t.drop_first()[j] == t[j + 1]);
        lemma_find_unique(t.drop_first(), h, i - 1);
    }
}

/// The session pool: one entry per host, plus the next jar identifier to hand
/// out.  Every cookie jar ever attached to a session got a distinct id.
pub struct SessionManager {
    sessions: Vec<(String, Session)>,
    next_jar: u64,
}

impl SessionManager {
    pub closed spec fn table(&self) -> Seq<(Seq<char>, SessionV)> {
        self.sessions@.map_values(|p: (String, Session)| entry_v(p))
    }

    pub closed spec fn next_jar_id(&self) -> int {
        self.next_jar as int
    }

    pub closed spec fn wf(&self) -> bool {
        &&& unique_hosts(self.table())
        &&& jars_below(self.table(), self.next_jar as int)
        &&& forall|i: int| 0 <= i < self.sessions@.len() ==> {
            let s = (#[trigger] self.sessions@[i]).1;
            s.client.profile == s.profile && s.client.jar == s.cookie_jar
                && s.profile < PROFILE_COUNT
        }
    }

    /// What well-formedness gives a caller: hosts are pairwise distinct and
    /// every jar identifier lies below the counter.
    pub proof fn lemma_wf(&self)
        requires
            self.wf(),
        ensures
            unique_hosts(self.table()),
            jars_below(self.table(), self.next_jar_id()),
    {
    }

    pub fn new() -> (r: SessionManager)
        ensures
            r.wf(),
            r.table() =~= Seq::<(Seq<char>, SessionV)>::empty(),
            r.next_jar_id() == 0,
    {
        SessionManager { sessions: Vec::new(), next_jar: 0 }
    }

    /// The stored entries, host by host in insertion order.
    pub fn sessions(&self) -> (r: &Vec<(String, Session)>)
        ensures
            r@.map_values(|p: (String, Session)| entry_v(p)) == self.table(),
    {
        &self.sessions
    }

    /// A client descriptor for the given profile bound to the given jar.
    fn create_client(profile: usize, jar: u64) -> (r: ClientHandle)
        ensures
            r.profile == profile,
            r.jar == jar,
    {
        ClientHandle { profile, jar }
    }

    /// Atomic get-or-create-and-rotate with the profile chosen by the caller.
    /// An existing entry keeps its cookie jar and gets the new profile and
    /// timestamp; a missing one is created around a fresh jar.
    pub fn get_or_create_session_with(
        &mut self,
        host: &String,
        now_ms: u64,
        profile_idx: usize,
    ) -> (r: ClientHandle)
        requires
            old(self).wf(),
            profile_idx < PROFILE_COUNT,
            old(self).next_jar_id() < 0xffff_ffff_ffff_ffff,
        ensures
            final(self).wf(),
            final(self).table() == spec_acquire(
                old(self).table(),
                host@,
                now_ms as int,
                profile_idx as int,
                old(self).next_jar_id(),
            ),
            r.profile == profile_idx,
            spec_find(old(self).table(), host@) >= 0 ==> {
                &&& r.jar as int == spec_jar_of(old(self).table(), host@)
                &&& final(self).next_jar_id() == old(self).next_jar_id()
            },
            spec_find(old(self).table(), host@) == -1 ==> {
                &&& r.jar as int == old(self).next_jar_id()
                &&& final(self).next_jar_id() == old(self).next_jar_id() + 1
            },
            spec_find(final(self).table(), host@) >= 0,
            spec_jar_of(final(self).table(), host@) == r.jar as int,
            spec_profile_of(final(self).table(), host@) == profile_idx as int,
    {
        let ghost t0 = self.table();
        let n = self.sessions.len();
        let mut i: usize = 0;
        let mut found = false;
        while i < n && !found
            invariant
                n == self.sessions@.len(),
                0 <= i <= n,
                forall|j: int| 0 <= j < i ==> (#[trigger] self.table()[j]).0 != host@,
                found ==> i < n && self.table()[i as int].0 == host@,
            decreases n - i + (if found { 0int } else { 1int }),
        {
            if self.sessions[i].0 == *host {
                found = true;
            } else {
                i += 1;
            }
        }
        if found {
            proof {
                lemma_find_unique(t0, host@, i as int);
            }
            let jar = self.sessions[i].1.cookie_jar;
            let handle = Self::create_client(profile_idx, jar);
            let host_key = self.sessions[i].0.clone();
            let entry = Session {
                client: handle,
                profile: profile_idx,
                last_used: now_ms,
                cookie_jar: jar,
            };
            self.sessions[i] = (host_key, entry);
            proof {
                assert(self.table() =~= spec_acquire(
                    t0,
                    host@,
                    now_ms as int,
                    profile_idx as int,
                    self.next_jar as int,
                ));
                lemma_find_unique(self.table(), host@, i as int);
            }
            handle
        } else {
            proof {
                lemma_find_spec(t0, host@);
                assert(spec_find(t0, host@) == -1);
            }
            let jar = self.next_jar;
            let handle = Self::create_client(profile_idx, jar);
            let entry = Session {
                client: handle,
                profile: profile_idx,
                last_used: now_ms,
                cookie_jar: jar,
            };
            self.next_jar = self.next_jar + 1;
            self.sessions.push((host.clone(), entry));
            proof {
                assert(self.table() =~= spec_acquire(
                    t0,
                    host@,
                    now_ms as int,
                    profile_idx as int,
                    jar as int,
                ));
                lemma_find_unique(self.table(), host@, t0.len() as int);
            }
            handle
        }
    }

    /// Atomic get-or-create-and-rotate: the profile is drawn uniformly from
    /// the catalogue, all else is as `get_or_create_session_with`.
    pub fn get_or_create_session(&mut self, host: &String, now_ms: u64) -> (r: ClientHandle)
        requires
            old(self).wf(),
            old(self).next_jar_id() < 0xffff_ffff_ffff_ffff,
        ensures
            final(self).wf(),
            r.profile < PROFILE_COUNT,
            final(self).table() == spec_acquire(
                old(self).table(),
                host@,
                now_ms as int,
                r.profile as int,
                old(self).next_jar_id(),
            ),
            spec_find(old(self).table(), host@) >= 0 ==> {
                &&& r.jar as int == spec_jar_of(old(self).table(), host@)
                &&& final(self).next_jar_id() == old(self).next_jar_id()
            },
            spec_find(old(self).table(), host@) == -1 ==> {
                &&& r.jar as int == old(self).next_jar_id()
                &&& final(self).next_jar_id() == old(self).next_jar_id() + 1
            },
            spec_find(final(self).table(), host@) >= 0,
            spec_jar_of(final(self).table(), host@) == r.jar as int,
    {
        let profile_idx = pick_profile_index(PROFILE_COUNT);
        self.get_or_create_session_with(host, now_ms, profile_idx)
    }

    /// Removes every session idle for 30 minutes or more.
    pub fn cleanup_sessions(&mut self, now_ms: u64) -> (removed: usize)
        requires
            old(self).wf(),
        ensures
            final(self).wf(),
            final(self).table() == spec_cleanup(old(self).table(), now_ms as int),
            final(self).next_jar_id() == old(self).next_jar_id(),
            removed == old(self).table().len() - final(self).table().len(),
    {
        let ghost t0 = self.table();
        let ghost pred = |p: (Seq<char>, SessionV)| spec_live(p.1, now_ms as int);
        let n = self.sessions.len();
        let mut out: Vec<(String, Session)> = Vec::new();
        let mut i: usize = 0;
        proof {
            assert(t0.take(0).filter(pred) =~= Seq::<(Seq<char>, SessionV)>::empty());
            assert(out@.map_values(|p: (String, Session)| entry_v(p)) =~= t0.take(0).filter(
                pred,
            ));
        }
        while i < n
            invariant
                n == self.sessions@.len(),
                0 <= i <= n,
                t0 == self.table(),
                pred == (|p: (Seq<char>, SessionV)| spec_live(p.1, now_ms as int)),
                out@.map_values(|p: (String, Session)| entry_v(p)) == t0.take(i as int).filter(
                    pred,
                ),
                out@.len() <= i,
                forall|k: int| 0 <= k < out@.len() ==> {
                    let s = (#[trigger] out@[k]).1;
                    s.client.profile == s.profile && s.client.jar == s.cookie_jar
                        && s.profile < PROFILE_COUNT
                },
                old(self).wf(),
                self.sessions@ == old(self).sessions@,
                self.next_jar == old(self).next_jar,
            decreases n - i,
        {
            let e_last_used = self.sessions[i].1.last_used;
            let live = if now_ms >= e_last_used {
                now_ms - e_last_used < SESSION_IDLE_MS
            } else {
                true
            };
            proof {
                reveal(Seq::filter);
                assert(t0.take(i + 1).drop_last() =~= t0.take(i as int));
                assert(t0.take(i + 1).last() == t0[i as int]);
                assert(live == pred(t0[i as int]));
            }
            if live {
                let host_key = self.sessions[i].0.clone();
                let entry = self.sessions[i].1;
                out.push((host_key, entry));
                proof {
                    assert(out@.map_values(|p: (String, Session)| entry_v(p)) =~= t0.take(
                        i + 1,
                    ).filter(pred));
                }
            } else {
                proof {
                    assert(out@.map_values(|p: (String, Session)| entry_v(p)) =~= t0.take(
                        i + 1,
                    ).filter(pred));
                }
            }
            i += 1;
        }
        proof {
            assert(t0.take(n as int) =~= t0);
        }
        let kept = out.len();
        self.sessions = out;
        proof {
            lemma_cleanup_preserves_wf(t0, now_ms as int, self.next_jar as int);
        }
        n - kept
    }
}

/// Filtering to the live sessions preserves host uniqueness and jar bounds.
proof fn lemma_cleanup_preserves_wf(t: Seq<(Seq<char>, SessionV)>, now: int, bound: int)
    requires
        unique_hosts(t),
        jars_below(t, bound),
    ensures
        unique_hosts(spec_cleanup(t, now)),
        jars_below(spec_cleanup(t, now), bound),
        spec_cleanup(t, now).len() <= t.len(),
    decreases t.len(),
{
    let pred = |p: (Seq<char>, SessionV)| spec_live(p.1, now);
    let f = t.filter(pred);
    t.lemma_filter_len(pred);
    assert forall|k: int| 0 <= k < f.len() implies (#[trigger] f[k]).1.jar < bound by {
        lemma_filter_elems(t, pred, k);
    }
    assert forall|k: int, l: int| 0 <= k < f.len() && 0 <= l < f.len() && k != l implies (
    #[trigger] f[k]).0 != (#[trigger] f[l]).0 by {
        if t.len() > 0 {
            reveal(Seq::filter);
            let prefix = t.drop_last();
            assert(unique_hosts(prefix)) by {
                assert(forall|i: int|
                    0 <= i < prefix.len() ==> #[trigger] prefix[i] == t[i]);
            }
            assert(jars_below(prefix, bound)) by {
                assert(forall|i: int|
                    0 <= i < prefix.len() ==> #[trigger] prefix[i] == t[i]);
            }
            lemma_cleanup_preserves_wf(prefix, now, bound);
            let fp = prefix.filter(pred);
            if pred(t.last()) {
                assert(f =~= fp.push(t.last()));
                if k < f.len() - 1 && l < f.len() - 1 {
                } else {
                    let other = if k < f.len() - 1 { k } else { l };
                    if other < f.len() - 1 {
                        lemma_filter_elems(prefix, pred, other);
                        let j = choose|j: int|
                            0 <= j < prefix.len() && prefix[j] == fp[other];
                        assert(t[j] == f[other]);
                        assert(t[j].0 != t.last().0);
                    }
                }
            } else {
                assert(f =~= fp);
            }
        }
    }
}

/// The law of cookie continuity under rotation: acquiring a host twice in a
/// row rotates the profile to the second sample but leaves the session bound
/// to the same cookie jar as after the first acquisition.
pub proof fn lemma_cookie_jar_stable(
    t: Seq<(Seq<char>, SessionV)>,
    h: Seq<char>,
    now1: int,
    p1: int,
    j1: int,
    now2: int,
    p2: int,
    j2: int,
)
    ensures
        ({
            let t1 = spec_acquire(t, h, now1, p1, j1);
            let t2 = spec_acquire(t1, h, now2, p2, j2);
            &&& spec_find(t1, h) >= 0
            &&& spec_find(t2, h) >= 0
            &&& spec_jar_of(t2, h) == spec_jar_of(t1, h)
            &&& spec_profile_of(t1, h) == p1
            &&& spec_profile_of(t2, h) == p2
        }),
{
    let t1 = spec_acquire(t, h, now1, p1, j1);
    lemma_acquire_find(t, h, now1, p1, j1);
    let t2 = spec_acquire(t1, h, now2, p2, j2);
    lemma_acquire_find(t1, h, now2, p2, j2);
}

/// After an acquisition the host is present, carries the sampled profile, and
/// its jar is the old entry's jar (when one existed) or the fresh one.
pub proof fn lemma_acquire_find(
    t: Seq<(Seq<char>, SessionV)>,
    h: Seq<char>,
    now: int,
    profile: int,
    fresh_jar: int,
)
    ensures
        ({
            let t1 = spec_acquire(t, h, now, profile, fresh_jar);
            &&& spec_find(t1, h) >= 0
            &&& spec_profile_of(t1, h) == profile
            &&& t1[spec_find(t1, h)].1.last_used == now
            &&& spec_jar_of(t1, h) == if spec_find(t, h) >= 0 {
                spec_jar_of(t, h)
            } else {
                fresh_jar
            }
        }),
{
    let i = spec_find(t, h);
    lemma_find_spec(t, h);
    let t1 = spec_acquire(t, h, now, profile, fresh_jar);
    if i >= 0 {
        assert(forall|j: int| 0 <= j < i ==> t1[j] == t[j]);
        assert forall|j: int| 0 <= j < i implies (#[trigger] t1[j]).0 != h by {
            lemma_find_before(t, h, j);
        }
        lemma_find_unique(t1, h, i);
    } else {
        assert(forall|j: int| 0 <= j < t.len() ==> t1[j] == t[j]);
        lemma_find_unique(t1, h, t.len() as int);
    }
}

/// Entries before the found index do not carry the host.
proof fn lemma_find_before(t: Seq<(Seq<char>, SessionV)>, h: Seq<char>, j: int)
    requires
        spec_find(t, h) >= 0,
        0 <= j < spec_find(t, h),
    ensures
        t[j].0 != h,
    decreases t.len(),
{
    lemma_find_spec(t, h);
    if t.len() == 0 {
    } else if t[0].0 == h {
    } else {
        if j > 0 {
            lemma_find_spec(t.drop_first(), h);
            lemma_find_before(t.drop_first(), h, j - 1);
            assert(t.drop_first()[j - 1] == t[j]);
        }
    }
}

/// The law of garbage collection: a session idle for the idle bound is gone
/// after cleanup, while an active one survives unchanged.
pub proof fn lemma_gc_removes_idle(t: Seq<(Seq<char>, SessionV)>, h: Seq<char>, now: int)
    requires
        unique_hosts(t),
        spec_find(t, h) >= 0,
        !spec_live(t[spec_find(t, h)].1, now),
    ensures
        spec_find(spec_cleanup(t, now), h) == -1,
{
    let pred = |p: (Seq<char>, SessionV)| spec_live(p.1, now);
    let f = spec_cleanup(t, now);
    let i = spec_find(t, h);
    lemma_find_spec(t, h);
    lemma_find_spec(f, h);
    if spec_find(f, h) >= 0 {
        let k = spec_find(f, h);
        lemma_filter_elems(t, pred, k);
        let j = choose|j: int| 0 <= j < t.len() && t[j] == f[k];
        t.lemma_filter_pred(pred, k);
        assert(t[j].0 == h);
        assert(j == i);
        assert(false);
    }
}

/// The law of garbage collection, second half: an active session survives
/// cleanup with its jar and profile intact.
pub proof fn lemma_gc_keeps_active(t: Seq<(Seq<char>, SessionV)>, h: Seq<char>, now: int)
    requires
        unique_hosts(t),
        spec_find(t, h) >= 0,
        spec_live(t[spec_find(t, h)].1, now),
    ensures
        spec_find(spec_cleanup(t, now), h) >= 0,
        spec_cleanup(t, now)[spec_find(spec_cleanup(t, now), h)] == t[spec_find(t, h)],
{
    let pred = |p: (Seq<char>, SessionV)| spec_live(p.1, now);
    let f = spec_cleanup(t, now);
    let i = spec_find(t, h);
    lemma_find_spec(t, h);
    t.lemma_filter_contains(pred, i);
    assert(f.contains(t[i]));
    let k0 = choose|k0: int| 0 <= k0 < f.len() && f[k0] == t[i];
    lemma_find_spec(f, h);
    if spec_find(f, h) == -1 {
        assert(f[k0].0 != h);
        assert(false);
    }
    let k = spec_find(f, h);
    lemma_filter_elems(t, pred, k);
    let j = choose|j: int| 0 <= j < t.len() && t[j] == f[k];
    assert(t[j].0 == h);
    assert(j == i);
}

/// A fresh acquisition after cleanup is bound to a jar no evicted session
/// ever used: jar identifiers are never reissued.
pub proof fn lemma_acquire_after_gc_fresh(
    t: Seq<(Seq<char>, SessionV)>,
    h: Seq<char>,
    now: int,
    profile: int,
    bound: int,
)
    requires
        unique_hosts(t),
        jars_below(t, bound),
        spec_find(spec_cleanup(t, now), h) == -1,
    ensures
        ({
            let t1 = spec_acquire(spec_cleanup(t, now), h, now, profile, bound);
            &&& spec_find(t1, h) >= 0
            &&& spec_jar_of(t1, h) == bound
            &&& forall|i: int| 0 <= i < t.len() ==> (#[trigger] t[i]).1.jar != bound
        }),
{
    lemma_acquire_find(spec_cleanup(t, now), h, now, profile, bound);
}

/// Relies on rand::thread_rng and rand::Rng::gen_range: a uniformly
/// distributed index below `n`.
#[verifier::external_body]
fn pick_profile_index(n: usize) -> (r: usize)
    requires
        n > 0,
    ensures
        r < n,
{
    rand::thread_rng().gen_range(0..n)
}

} // verus!
