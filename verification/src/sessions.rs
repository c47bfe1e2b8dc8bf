//! Server-side sessions and the lockout after failed logins. There is one user, so both are global.
//!
//! Moments are nanoseconds on a clock that never runs backwards; where that clock starts does not
//! matter.

use crate::net::same_octets;
use crate::random::random_bytes;
use base64::Engine;
use sha2::Digest;
use vstd::prelude::*;
use vstd::utf8::encode_utf8;

verus! {

/// How long a session lasts: twelve hours.
pub const SESSION_TTL: u64 = 43_200_000_000_000;

/// Failed logins in a row after which logins are locked.
pub const MAX_FAILURES: u32 = 5;

/// How long logins stay locked: fifteen minutes.
pub const LOCKOUT: u64 = 900_000_000_000;

/// The SHA-256 digest of `data`.
pub uninterp spec fn sha256(data: Seq<u8>) -> Seq<u8>;

/// `sha2::Sha256::digest` gives the 32 octets of the SHA-256 digest of its argument.
#[verifier::external_body]
fn sha256_digest(data: &[u8]) -> (digest: [u8; 32])
    ensures
        digest@ == sha256(data@),
{
    sha2::Sha256::digest(data).into()
}

/// The character that stands for `n` in the URL-safe base64 alphabet.
pub open spec fn base64_char(n: int) -> char {
    if n < 26 {
        (65 + n) as char
    } else if n < 52 {
        (71 + n) as char
    } else if n < 62 {
        (n - 4) as char
    } else if n == 62 {
        '-'
    } else {
        '_'
    }
}

/// The octet at `i`, or zero past the end.
pub open spec fn octet_or_zero(bytes: Seq<u8>, i: int) -> int {
    if i < bytes.len() {
        bytes[i] as int
    } else {
        0
    }
}

/// The `i`th group of six bits of `bytes`, from the most significant bit on.
pub open spec fn sextet(bytes: Seq<u8>, i: int) -> int {
    let at = i / 4 * 3;
    let triple = octet_or_zero(bytes, at) * 65536 + octet_or_zero(bytes, at + 1) * 256
        + octet_or_zero(bytes, at + 2);
    if i % 4 == 0 {
        triple / 262144 % 64
    } else if i % 4 == 1 {
        triple / 4096 % 64
    } else if i % 4 == 2 {
        triple / 64 % 64
    } else {
        triple % 64
    }
}

/// `bytes` in URL-safe base64 without padding.
pub open spec fn base64_url(bytes: Seq<u8>) -> Seq<char> {
    Seq::new((bytes.len() * 4 + 2) / 3, |i: int| base64_char(sextet(bytes, i)))
}

/// `base64`'s `URL_SAFE_NO_PAD` engine: its `encode` writes every group of six bits as one
/// character of the URL-safe alphabet, the last group filled up with zero bits, and no padding.
#[verifier::external_body]
fn base64_encode(bytes: &[u8; 32]) -> (text: String)
    ensures
        text@ == base64_url(bytes@),
{
    base64::engine::general_purpose::URL_SAFE_NO_PAD.encode(bytes)
}

/// What a session is filed under: the digest of its token.
pub open spec fn token_key(token: Seq<char>) -> Seq<u8> {
    sha256(encode_utf8(token))
}

fn token_hash(token: &str) -> (digest: [u8; 32])
    ensures
        digest@ == token_key(token@),
{
    sha256_digest(token.as_bytes())
}

/// Consecutive failures so far and, after too many, the end of the lock.
#[derive(Clone, Copy, Debug, PartialEq, Eq)]
pub struct Lockout {
    pub failures: u32,
    pub locked_until: Option<u64>,
}

impl Lockout {
    /// No failures and no lock.
    pub open spec fn clear() -> Lockout {
        Lockout { failures: 0, locked_until: None }
    }

    /// What remains of the lock at `now`, if anything.
    pub open spec fn remaining(self, now: u64) -> Option<u64> {
        match self.locked_until {
            Some(t) => if t > now {
                Some((t - now) as u64)
            } else {
                None
            },
            None => None,
        }
    }

    /// The state after one more failure at `now`.
    pub open spec fn failed(self, now: u64) -> Lockout {
        if self.failures + 1 >= MAX_FAILURES {
            Lockout { failures: 0, locked_until: Some((now + LOCKOUT) as u64) }
        } else {
            Lockout { failures: (self.failures + 1) as u32, locked_until: self.locked_until }
        }
    }

    /// The state after failures at each of `times`, in order.
    pub open spec fn failed_at(self, times: Seq<u64>) -> Lockout
        decreases times.len(),
    {
        if times.len() == 0 {
            self
        } else {
            self.failed_at(times.drop_last()).failed(times.last())
        }
    }
}

/// Whether the session filed under `key` is open at `now`.
pub open spec fn open_at(sessions: Map<Seq<u8>, u64>, key: Seq<u8>, now: u64) -> bool {
    sessions.dom().contains(key) && sessions[key] > now
}

/// `sessions` without those that have ended at `now`.
pub open spec fn unexpired(sessions: Map<Seq<u8>, u64>, now: u64) -> Map<Seq<u8>, u64> {
    sessions.restrict(Set::new(|k: Seq<u8>| sessions.dom().contains(k) && sessions[k] > now))
}

/// `sessions` after one more has been opened at `now`: those that have ended are forgotten.
pub open spec fn opened(sessions: Map<Seq<u8>, u64>, key: Seq<u8>, now: u64) -> Map<Seq<u8>, u64> {
    unexpired(sessions, now).insert(key, (now + SESSION_TTL) as u64)
}

/// A call of one of the methods of `Sessions`; a token is given by its digest.
pub enum Call {
    Create { key: Seq<u8>, at: u64 },
    IsValid { key: Seq<u8>, at: u64 },
    Revoke { key: Seq<u8> },
    RecordFailure { at: u64 },
    RecordSuccess,
    LockedFor { at: u64 },
}

/// `sessions` after one call.
pub open spec fn sessions_step(sessions: Map<Seq<u8>, u64>, call: Call) -> Map<Seq<u8>, u64> {
    match call {
        Call::Create { key, at } => opened(sessions, key, at),
        Call::Revoke { key } => sessions.remove(key),
        _ => sessions,
    }
}

/// `sessions` after `calls`, in order.
pub open spec fn sessions_after(sessions: Map<Seq<u8>, u64>, calls: Seq<Call>) -> Map<Seq<u8>, u64>
    decreases calls.len(),
{
    if calls.len() == 0 {
        sessions
    } else {
        sessions_step(sessions_after(sessions, calls.drop_last()), calls.last())
    }
}

/// The lockout after one call.
pub open spec fn lock_step(lock: Lockout, call: Call) -> Lockout {
    match call {
        Call::RecordFailure { at } => lock.failed(at),
        Call::RecordSuccess => Lockout::clear(),
        _ => lock,
    }
}

/// The lockout after `calls`, in order.
pub open spec fn lock_after(lock: Lockout, calls: Seq<Call>) -> Lockout
    decreases calls.len(),
{
    if calls.len() == 0 {
        lock
    } else {
        lock_step(lock_after(lock, calls.drop_last()), calls.last())
    }
}

/// The moments of the failures among `calls`.
pub open spec fn failure_times(calls: Seq<Call>) -> Seq<u64>
    decreases calls.len(),
{
    if calls.len() == 0 {
        Seq::empty()
    } else {
        match calls.last() {
            Call::RecordFailure { at } => failure_times(calls.drop_last()).push(at),
            _ => failure_times(calls.drop_last()),
        }
    }
}

/// One session: the digest of its token, and when it ends. The token itself is not kept.
struct Entry {
    key: [u8; 32],
    ends: u64,
}

/// The position of `key` among `entries`.
spec fn at(entries: Seq<Entry>, key: Seq<u8>, i: int) -> bool {
    0 <= i < entries.len() && entries[i].key@ == key
}

spec fn unique(entries: Seq<Entry>) -> bool {
    forall|i: int, j: int| 0 <= i < j < entries.len() ==> entries[i].key@ != entries[j].key@
}

spec fn as_map(entries: Seq<Entry>) -> Map<Seq<u8>, u64> {
    Map::new(
        |k: Seq<u8>| exists|i: int| at(entries, k, i),
        |k: Seq<u8>| entries[choose|i: int| at(entries, k, i)].ends,
    )
}

proof fn entry_in_map(entries: Seq<Entry>, i: int)
    requires
        unique(entries),
        0 <= i < entries.len(),
    ensures
        as_map(entries).dom().contains(entries[i].key@),
        as_map(entries)[entries[i].key@] == entries[i].ends,
{
    let key = entries[i].key@;
    assert(at(entries, key, i));
    let j = choose|j: int| at(entries, key, j);
    assert(at(entries, key, j));
    if j < i {
        assert(entries[j].key@ != entries[i].key@);
    } else if i < j {
        assert(entries[i].key@ != entries[j].key@);
    }
}

/// All sessions, and the lockout.
pub struct Sessions {
    entries: Vec<Entry>,
    lockout: Lockout,
}

impl Sessions {
    /// No two sessions share a digest, and the failures stay below the limit.
    pub closed spec fn wf(self) -> bool {
        unique(self.entries@) && self.lockout.failures < MAX_FAILURES
    }

    /// Digest of the token → end of the session.
    pub closed spec fn sessions(self) -> Map<Seq<u8>, u64> {
        as_map(self.entries@)
    }

    /// The lockout.
    pub closed spec fn lock(self) -> Lockout {
        self.lockout
    }
}

impl Default for Sessions {
    fn default() -> (s: Sessions)
        ensures
            s.wf(),
            s.sessions() == Map::<Seq<u8>, u64>::empty(),
            s.lock() == Lockout::clear(),
    {
        let s = Sessions {
            entries: Vec::new(),
            lockout: Lockout { failures: 0, locked_until: None },
        };
        assert(s.sessions() =~= Map::<Seq<u8>, u64>::empty());
        s
    }
}

impl Sessions {
    /// Remaining lockout, if any.
    pub fn locked_for(&self, now: u64) -> (left: Option<u64>)
        ensures
            left == self.lock().remaining(now),
    {
        match self.lockout.locked_until {
            Some(t) => if t > now {
                Some(t - now)
            } else {
                None
            },
            None => None,
        }
    }

    /// Counts a failed login; the last one allowed in a row locks further logins.
    pub fn record_failure(&mut self, now: u64)
        requires
            old(self).wf(),
            old(self).lock().failures + 1 >= MAX_FAILURES ==> now + LOCKOUT <= u64::MAX,
        ensures
            final(self).wf(),
            final(self).lock() == old(self).lock().failed(now),
            final(self).sessions() == old(self).sessions(),
    {
        if self.lockout.failures + 1 >= MAX_FAILURES {
            self.lockout = Lockout { failures: 0, locked_until: Some(now + LOCKOUT) };
        } else {
            self.lockout = Lockout {
                failures: self.lockout.failures + 1,
                locked_until: self.lockout.locked_until,
            };
        }
    }

    /// Forgets all failures and any lock.
    pub fn record_success(&mut self)
        requires
            old(self).wf(),
        ensures
            final(self).wf(),
            final(self).lock() == Lockout::clear(),
            final(self).sessions() == old(self).sessions(),
    {
        self.lockout = Lockout { failures: 0, locked_until: None };
    }

    /// Opens a session whose token is made of `bytes`.
    pub fn open_with(&mut self, bytes: &[u8; 32], now: u64) -> (token: String)
        requires
            old(self).wf(),
            now + SESSION_TTL <= u64::MAX,
        ensures
            token@ == base64_url(bytes@),
            final(self).wf(),
            final(self).sessions() == opened(old(self).sessions(), token_key(token@), now),
            final(self).lock() == old(self).lock(),
    {
        let token = base64_encode(bytes);
        let key = token_hash(&token);
        let ghost before = self.entries@;
        let mut kept: Vec<Entry> = Vec::new();
        let mut i: usize = 0;
        while i < self.entries.len()
            invariant
                i <= self.entries@.len(),
                self.entries@ == before,
                self.lockout == old(self).lockout,
                unique(before),
                unique(kept@),
                forall|j: int|
                    0 <= j < kept@.len() ==> (#[trigger] kept@[j]).key@ != key@ && kept@[j].ends
                        > now && exists|k: int| 0 <= k < i && before[k] == kept@[j],
                forall|k: int|
                    0 <= k < i && (#[trigger] before[k]).ends > now && before[k].key@ != key@
                        ==> exists|j: int| 0 <= j < kept@.len() && kept@[j] == before[k],
            decreases self.entries@.len() - i,
        {
            let ghost prev = kept@;
            let keep: bool = self.entries[i].ends > now && !same_octets(
                self.entries[i].key.as_slice(),
                key.as_slice(),
            );
            if keep {
                let e = Entry { key: self.entries[i].key, ends: self.entries[i].ends };
                assert(e == before[i as int]);
                kept.push(e);
                assert forall|a: int, b: int| 0 <= a < b < kept@.len() implies kept@[a].key@
                    != kept@[b].key@ by {
                    if b == prev.len() {
                        let k = choose|k: int| 0 <= k < i && before[k] == prev[a];
                        assert(before[k].key@ != before[i as int].key@);
                    } else {
                        assert(prev[a].key@ != prev[b].key@);
                    }
                }
                assert(kept@[prev.len() as int] == before[i as int]);
            }
            assert forall|j: int| 0 <= j < kept@.len() implies (#[trigger] kept@[j]).key@ != key@
                && kept@[j].ends > now && exists|k: int| 0 <= k < i + 1 && before[k] == kept@[j] by {
                if j < prev.len() {
                    assert(kept@[j] == prev[j]);
                    let k = choose|k: int| 0 <= k < i && before[k] == prev[j];
                    assert(0 <= k < i + 1 && before[k] == kept@[j]);
                } else {
                    assert(before[i as int] == kept@[j]);
                }
            }
            assert forall|k: int|
                0 <= k < i + 1 && (#[trigger] before[k]).ends > now && before[k].key@
                    != key@ implies exists|j: int| 0 <= j < kept@.len() && kept@[j] == before[k] by {
                if k < i {
                    let j = choose|j: int| 0 <= j < prev.len() && prev[j] == before[k];
                    assert(kept@[j] == before[k]);
                } else {
                    assert(kept@[prev.len() as int] == before[k]);
                }
            }
            i += 1;
        }
        let ghost rest = kept@;
        kept.push(Entry { key, ends: now + SESSION_TTL });
        proof {
            let all = kept@;
            assert(unique(all));
            let want = opened(as_map(before), key@, now);
            assert forall|k: Seq<u8>| as_map(all).dom().contains(k) == want.dom().contains(k) by {
                if as_map(all).dom().contains(k) {
                    let j = choose|j: int| at(all, k, j);
                    if j < rest.len() {
                        assert(rest[j] == all[j]);
                        let b = choose|b: int| 0 <= b < before.len() && before[b] == rest[j];
                        entry_in_map(before, b);
                    }
                }
                if want.dom().contains(k) {
                    if k == key@ {
                        assert(at(all, k, rest.len() as int));
                    } else {
                        let b = choose|b: int| at(before, k, b);
                        entry_in_map(before, b);
                        let j = choose|j: int| 0 <= j < rest.len() && rest[j] == before[b];
                        assert(at(all, k, j));
                    }
                }
            }
            assert forall|k: Seq<u8>| as_map(all).dom().contains(k) implies as_map(all)[k]
                == want[k] by {
                let j = choose|j: int| at(all, k, j);
                entry_in_map(all, j);
                if j < rest.len() {
                    assert(rest[j] == all[j]);
                    let b = choose|b: int| 0 <= b < before.len() && before[b] == rest[j];
                    entry_in_map(before, b);
                }
            }
            assert(as_map(all) =~= want);
        }
        self.entries = kept;
        token
    }

    /// Creates a session and returns its bearer token (only ever sent in the cookie).
    pub fn create(&mut self, now: u64) -> (token: String)
        requires
            old(self).wf(),
            now + SESSION_TTL <= u64::MAX,
        ensures
            exists|bytes: Seq<u8>| bytes.len() == 32 && token@ == base64_url(bytes),
            final(self).wf(),
            final(self).sessions() == opened(old(self).sessions(), token_key(token@), now),
            final(self).lock() == old(self).lock(),
    {
        let bytes: [u8; 32] = random_bytes();
        assert(bytes@.len() == 32);
        self.open_with(&bytes, now)
    }

    /// The position of `key`, if it is filed.
    fn find(&self, key: &[u8; 32]) -> (r: Option<usize>)
        requires
            self.wf(),
        ensures
            match r {
                Some(i) => at(self.entries@, key@, i as int),
                None => !self.sessions().dom().contains(key@),
            },
    {
        let mut i: usize = 0;
        while i < self.entries.len()
            invariant
                i <= self.entries@.len(),
                forall|j: int| 0 <= j < i ==> !at(self.entries@, key@, j),
            decreases self.entries@.len() - i,
        {
            if same_octets(self.entries[i].key.as_slice(), key.as_slice()) {
                return Some(i);
            }
            i += 1;
        }
        None
    }

    /// Whether `token` belongs to a session that is open at `now`.
    pub fn is_valid(&self, token: &str, now: u64) -> (ok: bool)
        requires
            self.wf(),
        ensures
            ok == open_at(self.sessions(), token_key(token@), now),
    {
        let key = token_hash(token);
        match self.find(&key) {
            Some(i) => {
                proof {
                    entry_in_map(self.entries@, i as int);
                }
                self.entries[i].ends > now
            },
            None => false,
        }
    }

    /// Ends the session of `token`, if there is one.
    pub fn revoke(&mut self, token: &str)
        requires
            old(self).wf(),
        ensures
            final(self).wf(),
            final(self).sessions() == old(self).sessions().remove(token_key(token@)),
            final(self).lock() == old(self).lock(),
    {
        let key = token_hash(token);
        let ghost before = self.entries@;
        match self.find(&key) {
            Some(i) => {
                self.entries.swap_remove(i);
                proof {
                    let all = self.entries@;
                    assert(all == before.update(i as int, before.last()).drop_last());
                    assert forall|a: int, b: int| 0 <= a < b < all.len() implies all[a].key@
                        != all[b].key@ by {
                        let x = if a == i { before.len() - 1 } else { a };
                        let y = if b == i { before.len() - 1 } else { b };
                        assert(all[a] == before[x] && all[b] == before[y]);
                        if x < y {
                            assert(before[x].key@ != before[y].key@);
                        } else {
                            assert(before[y].key@ != before[x].key@);
                        }
                    }
                    let want = as_map(before).remove(key@);
                    assert forall|k: Seq<u8>|
                        as_map(all).dom().contains(k) == want.dom().contains(k) by {
                        if as_map(all).dom().contains(k) {
                            let j = choose|j: int| at(all, k, j);
                            let x = if j == i { before.len() - 1 } else { j };
                            assert(at(before, k, x));
                            if k == key@ {
                                if x < i {
                                    assert(before[x].key@ != before[i as int].key@);
                                } else {
                                    assert(before[i as int].key@ != before[x].key@);
                                }
                            }
                        }
                        if want.dom().contains(k) {
                            let b = choose|b: int| at(before, k, b);
                            assert(b != i);
                            if b == before.len() - 1 {
                                assert(at(all, k, i as int));
                            } else {
                                assert(at(all, k, b));
                            }
                        }
                    }
                    assert forall|k: Seq<u8>| as_map(all).dom().contains(k) implies as_map(all)[k]
                        == want[k] by {
                        let j = choose|j: int| at(all, k, j);
                        entry_in_map(all, j);
                        let x = if j == i { before.len() - 1 } else { j };
                        assert(all[j] == before[x]);
                        entry_in_map(before, x);
                    }
                    assert(as_map(all) =~= want);
                }
            },
            None => {
                assert(as_map(before).remove(key@) =~= as_map(before));
            },
        }
    }
}

/// A session is open from the moment it is created until twelve hours later, and not after.
pub proof fn session_lasts_its_time(m: Map<Seq<u8>, u64>, key: Seq<u8>, start: u64, now: u64)
    requires
        start + SESSION_TTL <= u64::MAX,
    ensures
        open_at(opened(m, key, start), key, now) <==> now < start + SESSION_TTL,
{
}

/// Opening a session changes nothing for any other, from that moment on.
pub proof fn opening_leaves_others_alone(
    m: Map<Seq<u8>, u64>,
    key: Seq<u8>,
    start: u64,
    other: Seq<u8>,
    now: u64,
)
    requires
        other != key,
        now >= start,
    ensures
        open_at(opened(m, key, start), other, now) == open_at(m, other, now),
{
}

/// A revoked session is closed at once and for good; every other session stays as it was.
pub proof fn revoking_closes_one_session(
    m: Map<Seq<u8>, u64>,
    key: Seq<u8>,
    other: Seq<u8>,
    now: u64,
)
    requires
        other != key,
    ensures
        !open_at(m.remove(key), key, now),
        open_at(m.remove(key), other, now) == open_at(m, other, now),
{
}

/// A token that was never handed out opens nothing: without an entry for its digest it is refused.
pub proof fn unknown_tokens_are_refused(m: Map<Seq<u8>, u64>, key: Seq<u8>, now: u64)
    requires
        !m.dom().contains(key),
    ensures
        !open_at(m, key, now),
{
}

/// Whether `calls` leave the session filed under `key` to itself: none opens or ends it.
pub open spec fn spare(calls: Seq<Call>, key: Seq<u8>) -> bool {
    forall|i: int|
        0 <= i < calls.len() ==> match #[trigger] calls[i] {
            Call::Create { key: other, .. } => other != key,
            Call::Revoke { key: other } => other != key,
            _ => true,
        }
}

/// Whether each session among `calls` is opened at `now` or before, or else before `limit`.
pub open spec fn opened_by(calls: Seq<Call>, now: u64, limit: int) -> bool {
    forall|i: int|
        0 <= i < calls.len() ==> match #[trigger] calls[i] {
            Call::Create { at, .. } => at <= now || at < limit,
            _ => true,
        }
}

proof fn session_is_kept(
    m: Map<Seq<u8>, u64>,
    key: Seq<u8>,
    start: u64,
    calls: Seq<Call>,
    now: u64,
)
    requires
        start + SESSION_TTL <= u64::MAX,
        spare(calls, key),
        opened_by(calls, now, start + SESSION_TTL),
    ensures
        ({
            let after = sessions_after(opened(m, key, start), calls);
            if after.dom().contains(key) {
                after[key] == start + SESSION_TTL
            } else {
                now >= start + SESSION_TTL
            }
        }),
    decreases calls.len(),
{
    if calls.len() > 0 {
        let init = calls.drop_last();
        assert forall|i: int| 0 <= i < init.len() implies #[trigger] init[i] == calls[i] by {}
        session_is_kept(m, key, start, init, now);
        assert(calls.last() == calls[calls.len() - 1]);
    }
}

/// Whatever is called after a session was created, as long as nothing ends it: it is open until
/// twelve hours after its creation, and not after. Sessions that are opened later may forget it once
/// it has ended, and no sooner.
pub proof fn session_outlives_other_calls(
    m: Map<Seq<u8>, u64>,
    key: Seq<u8>,
    start: u64,
    calls: Seq<Call>,
    now: u64,
)
    requires
        start + SESSION_TTL <= u64::MAX,
        spare(calls, key),
        opened_by(calls, now, start + SESSION_TTL),
    ensures
        open_at(sessions_after(opened(m, key, start), calls), key, now) <==> now < start
            + SESSION_TTL,
{
    session_is_kept(m, key, start, calls, now);
}

/// A token that is not filed, because it was never handed out or because it was revoked, stays
/// refused whatever is called, until a session is created under it.
pub proof fn only_creating_opens(m: Map<Seq<u8>, u64>, key: Seq<u8>, calls: Seq<Call>, now: u64)
    requires
        !m.dom().contains(key),
        forall|i: int|
            0 <= i < calls.len() ==> match #[trigger] calls[i] {
                Call::Create { key: other, .. } => other != key,
                _ => true,
            },
    ensures
        !sessions_after(m, calls).dom().contains(key),
        !open_at(sessions_after(m, calls), key, now),
    decreases calls.len(),
{
    if calls.len() > 0 {
        let init = calls.drop_last();
        assert forall|i: int| 0 <= i < init.len() implies #[trigger] init[i] == calls[i] by {}
        only_creating_opens(m, key, init, now);
        assert(calls.last() == calls[calls.len() - 1]);
    }
}

/// Asking, failing and succeeding open and close no session.
pub proof fn only_creating_and_revoking_matter(m: Map<Seq<u8>, u64>, calls: Seq<Call>)
    requires
        forall|i: int|
            0 <= i < calls.len() ==> !(#[trigger] calls[i] is Create) && !(calls[i] is Revoke),
    ensures
        sessions_after(m, calls) == m,
    decreases calls.len(),
{
    if calls.len() > 0 {
        let init = calls.drop_last();
        assert forall|i: int| 0 <= i < init.len() implies #[trigger] init[i] == calls[i] by {}
        only_creating_and_revoking_matter(m, init);
        assert(calls.last() == calls[calls.len() - 1]);
    }
}

/// How many of `n` failures in a row have gone into locks: the largest multiple of five.
pub open spec fn in_locks(n: nat) -> int {
    n - n % (MAX_FAILURES as nat)
}

/// Of any number of failures in a row, every fifth locks, for fifteen minutes from that failure, and
/// starts the count over; the others leave the lock as it is.
pub proof fn every_fifth_failure_locks(times: Seq<u64>, now: u64)
    requires
        in_locks(times.len()) > 0 ==> times[in_locks(times.len()) - 1] + LOCKOUT <= u64::MAX,
    ensures
        ({
            let lock = Lockout::clear().failed_at(times);
            let k = in_locks(times.len());
            &&& lock.failures == times.len() % (MAX_FAILURES as nat)
            &&& k == 0 ==> lock.locked_until is None && lock.remaining(now) is None
            &&& k > 0 ==> lock.locked_until == Some((times[k - 1] + LOCKOUT) as u64)
            &&& k > 0 ==> (lock.remaining(now) is Some <==> now < times[k - 1] + LOCKOUT)
            &&& k > 0 ==> (lock.remaining(now) matches Some(left) ==> left == times[k - 1] + LOCKOUT
                - now)
        }),
{
    failures_add_up(times);
}

proof fn failures_add_up(times: Seq<u64>)
    ensures
        ({
            let lock = Lockout::clear().failed_at(times);
            let k = in_locks(times.len());
            &&& lock.failures == times.len() % (MAX_FAILURES as nat)
            &&& lock.locked_until == if k == 0 {
                None::<u64>
            } else {
                Some((times[k - 1] + LOCKOUT) as u64)
            }
        }),
    decreases times.len(),
{
    if times.len() > 0 {
        failures_add_up(times.drop_last());
    }
}

/// The lockout after any calls since the last success, or since the start, is that of the failures
/// among them: nothing else counts.
pub proof fn only_failures_lock(calls: Seq<Call>)
    requires
        forall|i: int| 0 <= i < calls.len() ==> !(#[trigger] calls[i] is RecordSuccess),
    ensures
        lock_after(Lockout::clear(), calls) == Lockout::clear().failed_at(failure_times(calls)),
    decreases calls.len(),
{
    if calls.len() > 0 {
        let init = calls.drop_last();
        assert forall|i: int| 0 <= i < init.len() implies #[trigger] init[i] == calls[i] by {}
        only_failures_lock(init);
        assert(calls.last() == calls[calls.len() - 1]);
        if let Call::RecordFailure { at } = calls.last() {
            assert(failure_times(calls).drop_last() =~= failure_times(init));
        }
    }
}

/// A success clears the lockout, whatever came before it.
pub proof fn success_starts_over(lock: Lockout, before: Seq<Call>, calls: Seq<Call>)
    ensures
        lock_after(lock, before.push(Call::RecordSuccess) + calls) == lock_after(
            Lockout::clear(),
            calls,
        ),
    decreases calls.len(),
{
    let all = before.push(Call::RecordSuccess) + calls;
    if calls.len() > 0 {
        success_starts_over(lock, before, calls.drop_last());
        assert(all.drop_last() =~= before.push(Call::RecordSuccess) + calls.drop_last());
    } else {
        assert(all.drop_last() =~= before);
    }
}

/// Fewer than five failures in a row never lock.
pub proof fn few_failures_do_not_lock(times: Seq<u64>, now: u64)
    requires
        times.len() < MAX_FAILURES,
    ensures
        Lockout::clear().failed_at(times).remaining(now) is None,
{
    every_fifth_failure_locks(times, now);
}

/// The fifth failure in a row locks for fifteen minutes from that failure, and the count starts
/// over.
pub proof fn fifth_failure_locks(times: Seq<u64>, now: u64)
    requires
        times.len() == MAX_FAILURES,
        times.last() + LOCKOUT <= u64::MAX,
    ensures
        Lockout::clear().failed_at(times).failures == 0,
        Lockout::clear().failed_at(times).remaining(now) is Some <==> now < times.last() + LOCKOUT,
        Lockout::clear().failed_at(times).remaining(now) matches Some(left) ==> left
            == times.last() + LOCKOUT - now,
{
    every_fifth_failure_locks(times, now);
}

/// Opening a session files it for twelve hours under the digest of its token, and keeps exactly those
/// others that have not ended, each with its end.
pub proof fn opening_files_one_session(
    m: Map<Seq<u8>, u64>,
    key: Seq<u8>,
    start: u64,
    other: Seq<u8>,
)
    requires
        start + 12 * 60 * 60 * 1_000_000_000 <= u64::MAX,
        other != key,
    ensures
        opened(m, key, start).contains_key(key),
        opened(m, key, start)[key] == start + 12 * 60 * 60 * 1_000_000_000,
        opened(m, key, start).contains_key(other) <==> m.contains_key(other) && m[other] > start,
        opened(m, key, start).contains_key(other) ==> opened(m, key, start)[other] == m[other],
{
}

/// The first four failures in a row are only counted; the fifth locks for fifteen minutes, and
/// counting starts over.
pub proof fn a_failure_counts_one(lock: Lockout, now: u64)
    requires
        now + 15 * 60 * 1_000_000_000 <= u64::MAX,
    ensures
        lock.failures < 4 ==> lock.failed(now) == (Lockout {
            failures: (lock.failures + 1) as u32,
            locked_until: lock.locked_until,
        }),
        lock.failures >= 4 ==> lock.failed(now) == (Lockout {
            failures: 0,
            locked_until: Some((now + 15 * 60 * 1_000_000_000) as u64),
        }),
        Lockout::clear() == (Lockout { failures: 0, locked_until: None }),
{
}

/// A lock is in force until it ends, and what remains of it is the time until then.
pub proof fn locks_run_out(lock: Lockout, now: u64)
    ensures
        lock.remaining(now) is Some <==> lock.locked_until is Some && now < lock.locked_until->0,
        lock.remaining(now) is Some ==> now + lock.remaining(now)->0 == lock.locked_until->0,
{
}

/// Sessions are filed under the SHA-256 digest of their token.
pub proof fn tokens_are_filed_by_digest(token: Seq<char>)
    ensures
        token_key(token) == sha256(encode_utf8(token)),
{
}

/// How long sessions and locks last, and how many failures lock.
pub proof fn sessions_and_locks_last()
    ensures
        SESSION_TTL == 12 * 60 * 60 * 1_000_000_000,
        LOCKOUT == 15 * 60 * 1_000_000_000,
        MAX_FAILURES == 5,
{
}

} // verus!
