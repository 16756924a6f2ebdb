//! Sessions and the bounded, least-recently-used handle table. Handle keys
//! and the session's vault key are wiped when they leave the table.

use vstd::prelude::*;
use zeroize::Zeroize;
use crate::cbor::clone_bytes;
use crate::crypto::random_bytes;
use crate::error::{CoreError, CoreResult};
use crate::hash::{hex_encode, hex_of};
use crate::types::{
    str_eq, KeyHandle, ResourceId, ResourceKeyId, ScopeEpoch, ScopeId, SessionAssurance,
    SessionId, SessionKind,
};

verus! {

/// Relies on zeroize's `Zeroize` for `Vec<u8>`: the bytes are overwritten
/// with zeros through a compiler fence and the vector is cleared.
#[verifier::external_body]
pub fn wipe_bytes(v: &mut Vec<u8>)
    ensures
        final(v)@.len() == 0,
{
    v.zeroize();
}

/// A key held by a session: a scope key or a resource key, each with the
/// identifiers it was opened for.
pub enum HandleEntry {
    ScopeKey { scope_id: ScopeId, scope_epoch: ScopeEpoch, key: Vec<u8> },
    ResourceKey { resource_id: ResourceId, resource_key_id: ResourceKeyId, key: Vec<u8> },
}

/// The key bytes a handle holds.
pub open spec fn entry_key(e: HandleEntry) -> Seq<u8> {
    match e {
        HandleEntry::ScopeKey { key, .. } => key@,
        HandleEntry::ResourceKey { key, .. } => key@,
    }
}

impl HandleEntry {
    /// Wipes the held key.
    pub fn wipe(&mut self)
        ensures
            entry_key(*final(self)).len() == 0,
    {
        match self {
            HandleEntry::ScopeKey { key, .. } => wipe_bytes(key),
            HandleEntry::ResourceKey { key, .. } => wipe_bytes(key),
        }
    }

    /// A copy of the held key.
    pub fn key_bytes(&self) -> (r: Vec<u8>)
        ensures
            r@ == entry_key(*self),
    {
        match self {
            HandleEntry::ScopeKey { key, .. } => clone_bytes(key),
            HandleEntry::ResourceKey { key, .. } => clone_bytes(key),
        }
    }

    /// Whether this handle holds a resource key.
    pub fn is_resource(&self) -> (r: bool)
        ensures
            r == (self is ResourceKey),
    {
        match self {
            HandleEntry::ResourceKey { .. } => true,
            _ => false,
        }
    }

    /// Whether this handle holds a scope key.
    pub fn is_scope(&self) -> (r: bool)
        ensures
            r == (self is ScopeKey),
    {
        match self {
            HandleEntry::ScopeKey { .. } => true,
            _ => false,
        }
    }
}

/// The handle table after removing the first entry with the given id, if
/// any.
pub open spec fn remove_first(
    handles: Seq<(String, HandleEntry)>,
    id: Seq<char>,
) -> Seq<(String, HandleEntry)>
    decreases handles,
{
    if handles.len() == 0 {
        handles
    } else if handles[0].0@ == id {
        handles.drop_first()
    } else {
        seq![handles[0]] + remove_first(handles.drop_first(), id)
    }
}

/// The first entry with the given id, if any.
pub open spec fn handle_lookup(handles: Seq<(String, HandleEntry)>, id: Seq<char>) -> Option<
    HandleEntry,
>
    decreases handles,
{
    if handles.len() == 0 {
        None
    } else if handles[0].0@ == id {
        Some(handles[0].1)
    } else {
        handle_lookup(handles.drop_first(), id)
    }
}

/// The first entry pair with the given id, if any.
pub open spec fn find_handle(handles: Seq<(String, HandleEntry)>, id: Seq<char>) -> Option<
    (String, HandleEntry),
>
    decreases handles,
{
    if handles.len() == 0 {
        None
    } else if handles[0].0@ == id {
        Some(handles[0])
    } else {
        find_handle(handles.drop_first(), id)
    }
}

/// When the first match sits at index `i`, removal drops exactly that
/// entry and the find returns it.
proof fn lemma_remove_find_at(handles: Seq<(String, HandleEntry)>, id: Seq<char>, i: int)
    requires
        0 <= i < handles.len(),
        handles[i].0@ == id,
        forall|q: int| 0 <= q < i ==> (#[trigger] handles[q]).0@ != id,
    ensures
        remove_first(handles, id) == handles.remove(i),
        find_handle(handles, id) == Some(handles[i]),
        handle_lookup(handles, id) == Some(handles[i].1),
    decreases i,
{
    if i == 0 {
        assert(handles.remove(0) =~= handles.drop_first());
    } else {
        lemma_remove_find_at(handles.drop_first(), id, i - 1);
        assert(handles.drop_first()[i - 1] == handles[i]);
        assert forall|q: int| 0 <= q < i - 1 implies (#[trigger] handles.drop_first()[q]).0@
            != id by {
            assert(handles.drop_first()[q] == handles[q + 1]);
        }
        assert(seq![handles[0]] + handles.drop_first().remove(i - 1) =~= handles.remove(i));
    }
}

/// How many of the oldest handles an insert evicts: none while the table
/// has room, else enough to leave room for one more.
pub open spec fn evict_count(len: nat, max: nat) -> nat {
    if len < max {
        0
    } else if max >= 1 {
        (len - max + 1) as nat
    } else {
        len
    }
}

/// An authenticated session: its identity, its lifetime, its assurance, the
/// unwrapped vault key, and the bounded least-recently-used handle table,
/// oldest handle first.
pub struct Session {
    pub session_id: SessionId,
    pub issued_at_ms: u64,
    pub expires_at_ms: u64,
    pub kind: SessionKind,
    pub assurance: SessionAssurance,
    pub vault_key: Vec<u8>,
    pub max_handles: usize,
    pub handles: Vec<(String, HandleEntry)>,
}

/// The handle bound: the table never outgrows `max_handles`.
pub open spec fn session_wf(s: Session) -> bool {
    s.max_handles >= 1 ==> s.handles@.len() <= s.max_handles
}

impl Session {
    /// A fresh session with an empty handle table and the default bound.
    pub fn new(
        session_id: SessionId,
        issued_at_ms: u64,
        expires_at_ms: u64,
        kind: SessionKind,
        assurance: SessionAssurance,
        vault_key: Vec<u8>,
    ) -> (r: Session)
        ensures
            session_wf(r),
            r.session_id.0@ == session_id.0@,
            r.issued_at_ms == issued_at_ms,
            r.expires_at_ms == expires_at_ms,
            r.kind == kind,
            r.assurance == assurance,
            r.vault_key@ == vault_key@,
            r.max_handles == 256,
            r.handles@.len() == 0,
    {
        Session {
            session_id,
            issued_at_ms,
            expires_at_ms,
            kind,
            assurance,
            vault_key,
            max_handles: 256,
            handles: Vec::new(),
        }
    }

    /// Inserts a handle under a fresh random id. While the table is full
    /// the oldest handles are evicted, their keys wiped; the new handle
    /// goes to the back. The table stays within its bound.
    pub fn insert_handle(&mut self, entry: HandleEntry) -> (r: CoreResult<KeyHandle>)
        ensures
            r is Ok ==> session_wf(*final(self)),
            session_wf(*old(self)) ==> session_wf(*final(self)),
            final(self).max_handles == old(self).max_handles,
            final(self).kind == old(self).kind,
            final(self).expires_at_ms == old(self).expires_at_ms,
            final(self).vault_key@ == old(self).vault_key@,
            r is Ok ==> ({
                let dropped = evict_count(old(self).handles@.len(), old(self).max_handles as nat);
                &&& final(self).handles@.len() == old(self).handles@.len() - dropped + 1
                &&& final(self).handles@.drop_last() == old(self).handles@.skip(dropped as int)
                &&& final(self).handles@.last().0@ == r->Ok_0.0@
                &&& final(self).handles@.last().1 == entry
                &&& exists|rb: Seq<u8>|
                    rb.len() == 16 && r->Ok_0.0@ == #[trigger] crate::hash::hex_of(rb)
                &&& old(self).max_handles >= 1 ==> final(self).handles@.len()
                    <= old(self).max_handles
            }),
            r is Err ==> r->Err_0 is Entropy,
    {
        let id_bytes = random_bytes(16)?;
        let id = hex_encode(id_bytes.as_slice());
        let ghost orig = self.handles@;
        proof {
            assert(orig.len() == self.handles.len());
        }
        let mut dropped: usize = 0;
        while self.handles.len() >= self.max_handles && self.handles.len() > 0
            invariant
                self.handles@ == orig.skip(dropped as int),
                dropped <= orig.len(),
                orig.len() <= usize::MAX,
                dropped == 0 || orig.len() - (dropped - 1) >= self.max_handles,
                self.max_handles == old(self).max_handles,
                self.session_id == old(self).session_id,
                self.issued_at_ms == old(self).issued_at_ms,
                self.expires_at_ms == old(self).expires_at_ms,
                self.kind == old(self).kind,
                self.assurance == old(self).assurance,
                self.vault_key == old(self).vault_key,
            decreases self.handles@.len(),
        {
            let mut evicted = self.handles.remove(0);
            evicted.1.wipe();
            dropped = dropped + 1;
            proof {
                assert(orig.skip(dropped - 1).drop_first() =~= orig.skip(dropped as int));
            }
        }
        proof {
            assert(dropped == evict_count(orig.len(), self.max_handles as nat));
        }
        self.handles.push((id.clone(), entry));
        proof {
            assert(self.handles@.drop_last() =~= orig.skip(dropped as int));
        }
        Ok(KeyHandle(id))
    }

    /// Looks a handle up and marks it most recently used: the entry moves
    /// to the back of the table.
    pub fn get_handle(&mut self, handle: &KeyHandle) -> (r: Option<HandleEntry>)
        ensures
            session_wf(*old(self)) ==> session_wf(*final(self)),
            final(self).max_handles == old(self).max_handles,
            final(self).kind == old(self).kind,
            final(self).expires_at_ms == old(self).expires_at_ms,
            final(self).vault_key@ == old(self).vault_key@,
            match r {
                Some(entry) => (handle_lookup(old(self).handles@, handle.0@) matches Some(stored)
                    && entry_key(entry) == entry_key(stored) && (entry is ScopeKey <==> stored is ScopeKey))
                    && (find_handle(old(self).handles@, handle.0@) matches Some(p)
                    && final(self).handles@ == remove_first(old(self).handles@, handle.0@).push(
                    p,
                )) && final(self).handles@.len() == old(self).handles@.len(),
                None => handle_lookup(old(self).handles@, handle.0@) is None && *final(self)
                    == *old(self),
            },
    {
        let ghost orig = self.handles@;
        let mut i: usize = 0;
        while i < self.handles.len()
            invariant
                i <= self.handles@.len(),
                *self == *old(self),
                self.handles@ == orig,
                forall|q: int| 0 <= q < i ==> (#[trigger] orig[q]).0@ != handle.0@,
            decreases self.handles@.len() - i,
        {
            if str_eq(self.handles[i].0.as_str(), handle.0.as_str()) {
                let ghost before = self.handles@;
                let entry = self.handles.remove(i);
                let copy = clone_entry(&entry.1);
                self.handles.push(entry);
                proof {
                    lemma_remove_find_at(orig, handle.0@, i as int);
                    assert(self.handles@.len() == before.len());
                    assert(self.handles@ == orig.remove(i as int).push(orig[i as int]));
                }
                return Some(copy);
            }
            i = i + 1;
        }
        proof {
            lemma_handle_lookup_missing(orig, handle.0@);
        }
        None
    }

    /// Removes the first handle with the given id, wiping its key. Absent
    /// ids leave the session unchanged.
    pub fn remove_handle(&mut self, handle: &KeyHandle)
        ensures
            session_wf(*old(self)) ==> session_wf(*final(self)),
            final(self).max_handles == old(self).max_handles,
            final(self).kind == old(self).kind,
            final(self).expires_at_ms == old(self).expires_at_ms,
            final(self).vault_key@ == old(self).vault_key@,
            final(self).handles@ == remove_first(old(self).handles@, handle.0@),
            handle_lookup(old(self).handles@, handle.0@) is None ==> *final(self) == *old(self),
    {
        let ghost orig = self.handles@;
        let mut i: usize = 0;
        while i < self.handles.len()
            invariant
                i <= self.handles@.len(),
                *self == *old(self),
                self.handles@ == orig,
                forall|q: int| 0 <= q < i ==> (#[trigger] orig[q]).0@ != handle.0@,
            decreases self.handles@.len() - i,
        {
            if str_eq(self.handles[i].0.as_str(), handle.0.as_str()) {
                let ghost before = self.handles@;
                let mut removed = self.handles.remove(i);
                removed.1.wipe();
                proof {
                    lemma_remove_find_at(orig, handle.0@, i as int);
                    assert(self.handles@.len() + 1 == before.len());
                }
                return ;
            }
            i = i + 1;
        }
        proof {
            lemma_handle_lookup_missing(orig, handle.0@);
            lemma_remove_first_missing(orig, handle.0@);
        }
    }

    /// Wipes every handle key and the vault key and empties the table.
    pub fn clear(&mut self)
        ensures
            final(self).handles@.len() == 0,
            final(self).vault_key@.len() == 0,
            final(self).max_handles == old(self).max_handles,
            final(self).kind == old(self).kind,
            final(self).expires_at_ms == old(self).expires_at_ms,
            session_wf(*final(self)),
    {
        while self.handles.len() > 0
            invariant
                self.max_handles == old(self).max_handles,
                self.session_id == old(self).session_id,
                self.issued_at_ms == old(self).issued_at_ms,
                self.expires_at_ms == old(self).expires_at_ms,
                self.kind == old(self).kind,
                self.assurance == old(self).assurance,
                self.vault_key == old(self).vault_key,
            decreases self.handles@.len(),
        {
            let last = self.handles.len() - 1;
            let mut removed = self.handles.remove(last);
            removed.1.wipe();
        }
        wipe_bytes(&mut self.vault_key);
    }
}

/// A copy of a handle entry.
fn clone_entry(e: &HandleEntry) -> (r: HandleEntry)
    ensures
        entry_key(r) == entry_key(*e),
        r is ScopeKey <==> e is ScopeKey,
{
    match e {
        HandleEntry::ScopeKey { scope_id, scope_epoch, key } => HandleEntry::ScopeKey {
            scope_id: scope_id.clone(),
            scope_epoch: *scope_epoch,
            key: clone_bytes(key),
        },
        HandleEntry::ResourceKey { resource_id, resource_key_id, key } => {
            HandleEntry::ResourceKey {
                resource_id: resource_id.clone(),
                resource_key_id: resource_key_id.clone(),
                key: clone_bytes(key),
            }
        },
    }
}

/// When the first match sits at index `i`, the lookup finds that entry.
proof fn lemma_handle_lookup_at(handles: Seq<(String, HandleEntry)>, id: Seq<char>, i: int)
    requires
        0 <= i < handles.len(),
        handles[i].0@ == id,
        forall|q: int| 0 <= q < i ==> (#[trigger] handles[q]).0@ != id,
    ensures
        handle_lookup(handles, id) == Some(handles[i].1),
    decreases i,
{
    if i > 0 {
        lemma_handle_lookup_at(handles.drop_first(), id, i - 1);
        assert(handles.drop_first()[i - 1] == handles[i]);
        assert forall|q: int| 0 <= q < i - 1 implies (#[trigger] handles.drop_first()[q]).0@
            != id by {
            assert(handles.drop_first()[q] == handles[q + 1]);
        }
    }
}

/// When no entry matches, removal leaves the table unchanged.
proof fn lemma_remove_first_missing(handles: Seq<(String, HandleEntry)>, id: Seq<char>)
    requires
        forall|q: int| 0 <= q < handles.len() ==> (#[trigger] handles[q]).0@ != id,
    ensures
        remove_first(handles, id) == handles,
    decreases handles,
{
    if handles.len() > 0 {
        assert forall|q: int| 0 <= q < handles.drop_first().len() implies (#[trigger] handles.drop_first()[q]).0@
            != id by {
            assert(handles.drop_first()[q] == handles[q + 1]);
        }
        lemma_remove_first_missing(handles.drop_first(), id);
        assert(seq![handles[0]] + handles.drop_first() =~= handles);
    }
}

/// When no entry matches, the lookup finds nothing.
proof fn lemma_handle_lookup_missing(handles: Seq<(String, HandleEntry)>, id: Seq<char>)
    requires
        forall|q: int| 0 <= q < handles.len() ==> (#[trigger] handles[q]).0@ != id,
    ensures
        handle_lookup(handles, id) is None,
    decreases handles,
{
    if handles.len() > 0 {
        assert forall|q: int| 0 <= q < handles.drop_first().len() implies (#[trigger] handles.drop_first()[q]).0@
            != id by {
            assert(handles.drop_first()[q] == handles[q + 1]);
        }
        lemma_handle_lookup_missing(handles.drop_first(), id);
    }
}

/// The open sessions, keyed by session id.
pub struct SessionManager {
    pub sessions: Vec<(String, Session)>,
}

impl SessionManager {
    /// An empty manager.
    pub fn new() -> (r: SessionManager)
        ensures
            r.sessions@.len() == 0,
    {
        SessionManager { sessions: Vec::new() }
    }

    /// Stores a session under its id.
    pub fn insert(&mut self, session_id: SessionId, session: Session)
        ensures
            final(self).sessions@.len() == old(self).sessions@.len() + 1,
            final(self).sessions@.last().1 == session,
            final(self).sessions@.last().0@ == session_id.0@,
            final(self).sessions@.drop_last() == old(self).sessions@,
    {
        self.sessions.push((session_id.0, session));
    }

    /// Takes the session with the given id out of the manager, if present.
    /// The caller puts it back with `insert` after mutating it.
    pub fn take(&mut self, session_id: &SessionId) -> (r: Option<Session>)
        ensures
            r is None ==> *final(self) == *old(self) && manager_lookup(
                old(self).sessions@,
                session_id.0@,
            ) is None,
            r is Some ==> final(self).sessions@.len() + 1 == old(self).sessions@.len()
                && manager_lookup(old(self).sessions@, session_id.0@) == Some(r->Some_0)
                && final(self).sessions@ == remove_first_session(
                old(self).sessions@,
                session_id.0@,
            ),
    {
        let mut i: usize = 0;
        while i < self.sessions.len()
            invariant
                i <= self.sessions@.len(),
                *self == *old(self),
                forall|q: int| 0 <= q < i ==> (#[trigger] self.sessions@[q]).0@ != session_id.0@,
            decreases self.sessions@.len() - i,
        {
            if str_eq(self.sessions[i].0.as_str(), session_id.0.as_str()) {
                proof {
                    lemma_manager_lookup_at(self.sessions@, session_id.0@, i as int);
                }
                let entry = self.sessions.remove(i);
                return Some(entry.1);
            }
            i = i + 1;
        }
        proof {
            lemma_manager_lookup_missing(self.sessions@, session_id.0@);
        }
        None
    }

    /// The expiry and kind of the session with the given id, if present.
    pub fn expires_of(&self, session_id: &SessionId) -> (r: Option<(u64, SessionKind)>)
        ensures
            match r {
                Some(info) => manager_lookup(self.sessions@, session_id.0@) matches Some(s)
                    && info.0 == s.expires_at_ms && info.1 == s.kind,
                None => manager_lookup(self.sessions@, session_id.0@) is None,
            },
    {
        let mut i: usize = 0;
        while i < self.sessions.len()
            invariant
                i <= self.sessions@.len(),
                forall|q: int| 0 <= q < i ==> (#[trigger] self.sessions@[q]).0@ != session_id.0@,
            decreases self.sessions@.len() - i,
        {
            if str_eq(self.sessions[i].0.as_str(), session_id.0.as_str()) {
                proof {
                    lemma_manager_lookup_at(self.sessions@, session_id.0@, i as int);
                }
                return Some((self.sessions[i].1.expires_at_ms, self.sessions[i].1.kind));
            }
            i = i + 1;
        }
        proof {
            lemma_manager_lookup_missing(self.sessions@, session_id.0@);
        }
        None
    }

    /// Removes every session with the given id, wiping their secrets. The
    /// id is absent afterwards; every other session is untouched.
    pub fn remove(&mut self, session_id: &SessionId)
        ensures
            final(self).sessions@.len() <= old(self).sessions@.len(),
            manager_lookup(final(self).sessions@, session_id.0@) is None,
            forall|os: Seq<char>|
                os != session_id.0@ ==> #[trigger] manager_lookup(final(self).sessions@, os)
                    == manager_lookup(old(self).sessions@, os),
    {
        loop
            invariant
                self.sessions@.len() <= old(self).sessions@.len(),
                forall|os: Seq<char>|
                    os != session_id.0@ ==> #[trigger] manager_lookup(self.sessions@, os)
                        == manager_lookup(old(self).sessions@, os),
            ensures
                manager_lookup(self.sessions@, session_id.0@) is None,
            decreases self.sessions@.len(),
        {
            let ghost prev = self.sessions@;
            match self.take(session_id) {
                Some(mut session) => {
                    proof {
                        assert forall|os: Seq<char>| os != session_id.0@ implies #[trigger] manager_lookup(
                            self.sessions@,
                            os,
                        ) == manager_lookup(prev, os) by {
                            lemma_remove_session_other(prev, session_id.0@, os);
                        }
                    }
                    session.clear();
                },
                None => {
                    break ;
                },
            }
        }
    }
}

/// The first session with the given id, if any.
pub open spec fn manager_lookup(sessions: Seq<(String, Session)>, id: Seq<char>) -> Option<Session>
    decreases sessions,
{
    if sessions.len() == 0 {
        None
    } else if sessions[0].0@ == id {
        Some(sessions[0].1)
    } else {
        manager_lookup(sessions.drop_first(), id)
    }
}

/// The session table after removing the first session with the given id, if
/// any.
pub open spec fn remove_first_session(
    sessions: Seq<(String, Session)>,
    id: Seq<char>,
) -> Seq<(String, Session)>
    decreases sessions,
{
    if sessions.len() == 0 {
        sessions
    } else if sessions[0].0@ == id {
        sessions.drop_first()
    } else {
        seq![sessions[0]] + remove_first_session(sessions.drop_first(), id)
    }
}

/// Removing one id leaves the lookup of every other id unchanged.
pub proof fn lemma_remove_session_other(
    sessions: Seq<(String, Session)>,
    id: Seq<char>,
    other: Seq<char>,
)
    requires
        other != id,
    ensures
        manager_lookup(remove_first_session(sessions, id), other) == manager_lookup(
            sessions,
            other,
        ),
    decreases sessions,
{
    if sessions.len() > 0 {
        if sessions[0].0@ == id {
        } else {
            lemma_remove_session_other(sessions.drop_first(), id, other);
            let removed = seq![sessions[0]] + remove_first_session(sessions.drop_first(), id);
            assert(removed[0] == sessions[0]);
            assert(removed.drop_first() =~= remove_first_session(sessions.drop_first(), id));
        }
    }
}

/// When the first match sits at index `i`, the lookup finds that session
/// and removal drops exactly that entry.
proof fn lemma_manager_lookup_at(sessions: Seq<(String, Session)>, id: Seq<char>, i: int)
    requires
        0 <= i < sessions.len(),
        sessions[i].0@ == id,
        forall|q: int| 0 <= q < i ==> (#[trigger] sessions[q]).0@ != id,
    ensures
        manager_lookup(sessions, id) == Some(sessions[i].1),
        remove_first_session(sessions, id) == sessions.remove(i),
    decreases i,
{
    if i == 0 {
        assert(sessions.remove(0) =~= sessions.drop_first());
    } else {
        lemma_manager_lookup_at(sessions.drop_first(), id, i - 1);
        assert(sessions.drop_first()[i - 1] == sessions[i]);
        assert forall|q: int| 0 <= q < i - 1 implies (#[trigger] sessions.drop_first()[q]).0@
            != id by {
            assert(sessions.drop_first()[q] == sessions[q + 1]);
        }
        assert(seq![sessions[0]] + sessions.drop_first().remove(i - 1) =~= sessions.remove(i));
    }
}

/// When no session matches, the lookup finds nothing.
proof fn lemma_manager_lookup_missing(sessions: Seq<(String, Session)>, id: Seq<char>)
    requires
        forall|q: int| 0 <= q < sessions.len() ==> (#[trigger] sessions[q]).0@ != id,
    ensures
        manager_lookup(sessions, id) is None,
    decreases sessions,
{
    if sessions.len() > 0 {
        assert forall|q: int| 0 <= q < sessions.drop_first().len() implies (#[trigger] sessions.drop_first()[q]).0@
            != id by {
            assert(sessions.drop_first()[q] == sessions[q + 1]);
        }
        lemma_manager_lookup_missing(sessions.drop_first(), id);
    }
}

} // verus!
