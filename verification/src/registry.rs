//! The registry: single source of truth for mirror groups and for the
//! per-repository seen flag with its two deferred-action queues.

use vstd::prelude::*;

use crate::bus::OnSeen;

verus! {

/// How often group creation re-rolls a colliding random identifier before
/// giving up.
pub const ID_ROLL_ATTEMPTS: usize = 16;

/// Number of characters in a mirror-group identifier. With one of 62
/// alphanumeric characters per position the identifier space exceeds 2^80.
pub const GROUP_ID_LEN: usize = 16;

/// A reference to one chat message: the channel it lives in and its own id.
#[derive(Clone, Copy, PartialEq, Eq, Structural, Debug)]
pub struct MsgRef {
    pub channel_id: u64,
    pub message_id: u64,
}

/// One mirror group: the binding of a file in an upstream repository to an
/// ordered sequence of pre-allocated chat messages. Immutable once created.
pub struct MirrorGroup {
    pub id: String,
    pub repo_id: u64,
    pub path: String,
    pub channel_id: u64,
    pub message_ids: Vec<u64>,
}

/// Deferred cleanup actions queued for one repository while it is unseen.
pub struct RepoQueues {
    pub repo_id: u64,
    pub delete_on_seen: Vec<MsgRef>,
    pub dereact_on_seen: Vec<MsgRef>,
}

/// Why a registry operation failed.
#[derive(Clone, Copy, PartialEq, Eq, Structural, Debug)]
pub enum RegistryError {
    /// No group with the requested identifier exists.
    NotFound,
    /// Freshly generated identifiers kept colliding with existing groups.
    IdCollision,
    /// A listed chat message already belongs to another mirror group.
    MessageInUse,
}

/// The mirror groups of one repository, in creation order.
pub open spec fn repo_groups(groups: Seq<MirrorGroup>, repo_id: u64) -> Seq<MirrorGroup>
    decreases groups.len(),
{
    if groups.len() == 0 {
        Seq::empty()
    } else {
        let rest = repo_groups(groups.drop_last(), repo_id);
        if groups.last().repo_id == repo_id {
            rest.push(groups.last())
        } else {
            rest
        }
    }
}

/// Each repository has at most one queue entry.
pub open spec fn queues_unique(qs: Seq<RepoQueues>) -> bool {
    forall|j: int, k: int| 0 <= j < k < qs.len() ==> qs[j].repo_id != qs[k].repo_id
}

/// Some queue entry exists for this repository.
pub open spec fn queues_has(qs: Seq<RepoQueues>, repo_id: u64) -> bool {
    exists|k: int| 0 <= k < qs.len() && (#[trigger] qs[k]).repo_id == repo_id
}

/// The queue entry for this repository (meaningful only when one exists and
/// entries are unique, which pins it down).
pub open spec fn queues_entry(qs: Seq<RepoQueues>, repo_id: u64) -> RepoQueues {
    let k = choose|k: int| 0 <= k < qs.len() && (#[trigger] qs[k]).repo_id == repo_id;
    qs[k]
}

/// The deferred deletions queued for this repository, oldest first; empty
/// when the repository has no queue entry.
pub open spec fn queues_delete(qs: Seq<RepoQueues>, repo_id: u64) -> Seq<MsgRef> {
    if queues_has(qs, repo_id) {
        queues_entry(qs, repo_id).delete_on_seen@
    } else {
        Seq::empty()
    }
}

/// The deferred reaction removals queued for this repository, oldest first;
/// empty when the repository has no queue entry.
pub open spec fn queues_dereact(qs: Seq<RepoQueues>, repo_id: u64) -> Seq<MsgRef> {
    if queues_has(qs, repo_id) {
        queues_entry(qs, repo_id).dereact_on_seen@
    } else {
        Seq::empty()
    }
}

/// The persistent state: mirror groups, the set of seen repositories, and
/// the deferred-action queues of repositories that are not yet seen.
pub struct Registry {
    pub groups: Vec<MirrorGroup>,
    pub seen: Vec<u64>,
    pub queues: Vec<RepoQueues>,
}

impl Registry {
    /// Well-formedness: group identifiers are unique, no chat message
    /// belongs to two groups (so the reverse message-to-group lookup has a
    /// unique answer), the seen list holds each repository at most once,
    /// and each repository has at most one queue entry.
    pub open spec fn wf(&self) -> bool {
        &&& forall|j: int, k: int|
            0 <= j < k < self.groups@.len() ==> self.groups@[j].id@ != self.groups@[k].id@
        &&& forall|j: int, k: int, m: u64|
            #![trigger self.groups@[j].message_ids@.contains(m), self.groups@[k].message_ids@.contains(m)]
            0 <= j < k < self.groups@.len() ==> !(self.groups@[j].message_ids@.contains(m)
                && self.groups@[k].message_ids@.contains(m))
        &&& forall|j: int, k: int|
            0 <= j < k < self.seen@.len() ==> self.seen@[j] != self.seen@[k]
        &&& queues_unique(self.queues@)
    }

    /// The repository is marked seen. An absent entry means not seen.
    pub open spec fn seen_spec(&self, repo_id: u64) -> bool {
        self.seen@.contains(repo_id)
    }

    /// The deferred deletions queued for this repository, oldest first.
    pub open spec fn delete_queue(&self, repo_id: u64) -> Seq<MsgRef> {
        queues_delete(self.queues@, repo_id)
    }

    /// The deferred reaction removals queued for this repository, oldest first.
    pub open spec fn dereact_queue(&self, repo_id: u64) -> Seq<MsgRef> {
        queues_dereact(self.queues@, repo_id)
    }

    /// A group with this identifier exists.
    pub open spec fn has_group(&self, id: Seq<char>) -> bool {
        exists|k: int| 0 <= k < self.groups@.len() && (#[trigger] self.groups@[k]).id@ == id
    }

    /// The group with this identifier (meaningful only when it exists and
    /// the registry is well formed, which makes it unique).
    pub open spec fn group_spec(&self, id: Seq<char>) -> MirrorGroup {
        let k = choose|k: int|
            0 <= k < self.groups@.len() && (#[trigger] self.groups@[k]).id@ == id;
        self.groups@[k]
    }

    /// An empty registry: no groups, nothing seen, no queued actions.
    pub fn new() -> (r: Registry)
        ensures
            r.wf(),
            r.groups@ =~= Seq::<MirrorGroup>::empty(),
            r.seen@ =~= Seq::<u64>::empty(),
            r.queues@ =~= Seq::<RepoQueues>::empty(),
    {
        Registry { groups: Vec::new(), seen: Vec::new(), queues: Vec::new() }
    }

    /// Whether the repository has been marked seen; absent means not seen.
    pub fn is_seen(&self, repo_id: u64) -> (r: bool)
        ensures
            r == self.seen_spec(repo_id),
    {
        let mut k: usize = 0;
        while k < self.seen.len()
            invariant
                0 <= k <= self.seen@.len(),
                forall|j: int| 0 <= j < k ==> self.seen@[j] != repo_id,
            decreases self.seen@.len() - k,
        {
            if self.seen[k] == repo_id {
                return true;
            }
            k = k + 1;
        }
        false
    }

    /// Set the seen flag to exactly `seen`, idempotently, and report whether
    /// the stored value changed. Touches no other repository and neither the
    /// groups nor the queues.
    pub fn set_seen(&mut self, repo_id: u64, seen: bool) -> (changed: bool)
        requires
            old(self).wf(),
        ensures
            final(self).wf(),
            changed == (old(self).seen_spec(repo_id) != seen),
            final(self).seen_spec(repo_id) == seen,
            forall|r: u64| r != repo_id ==> final(self).seen_spec(r) == old(self).seen_spec(r),
            final(self).groups == old(self).groups,
            final(self).queues == old(self).queues,
    {
        match self.seen_index(repo_id) {
            Some(k) => {
                // present, hence currently seen
                assert(self.seen_spec(repo_id));
                if seen {
                    false
                } else {
                    let ghost prior = self.seen@;
                    self.seen.remove(k);
                    proof {
                        lemma_remove_unique(prior, k as int, repo_id);
                    }
                    true
                }
            },
            None => {
                // absent, hence currently not seen
                if seen {
                    self.seen.push(repo_id);
                    proof {
                        lemma_push_contains(old(self).seen@, repo_id);
                    }
                    true
                } else {
                    false
                }
            },
        }
    }

    /// Append one deferred deletion to this repository's queue. Touches no
    /// other repository's queues and neither the groups nor the seen list.
    pub fn queue_delete_on_seen(&mut self, repo_id: u64, channel_id: u64, message_id: u64)
        requires
            old(self).wf(),
        ensures
            final(self).wf(),
            final(self).delete_queue(repo_id) == old(self).delete_queue(repo_id).push(
                (MsgRef { channel_id, message_id }),
            ),
            final(self).dereact_queue(repo_id) == old(self).dereact_queue(repo_id),
            forall|r2: u64|
                r2 != repo_id ==> final(self).delete_queue(r2) == old(self).delete_queue(r2)
                    && final(self).dereact_queue(r2) == old(self).dereact_queue(r2),
            final(self).groups == old(self).groups,
            final(self).seen == old(self).seen,
    {
        let m = MsgRef { channel_id, message_id };
        match self.queue_index(repo_id) {
            Some(k) => {
                proof {
                    lemma_queues_at(self.queues@, k as int);
                }
                let mut e = self.queues.remove(k);
                e.delete_on_seen.push(m);
                let ghost enew = e;
                self.queues.insert(k, e);
                proof {
                    assert(self.queues@ =~= old(self).queues@.update(k as int, enew));
                    lemma_queues_update_same(old(self).queues@, k as int, enew);
                }
            },
            None => {
                let mut dels: Vec<MsgRef> = Vec::new();
                dels.push(m);
                let e = RepoQueues {
                    repo_id,
                    delete_on_seen: dels,
                    dereact_on_seen: Vec::new(),
                };
                let ghost enew = e;
                self.queues.push(e);
                proof {
                    lemma_queues_push_new(old(self).queues@, enew);
                    assert(enew.delete_on_seen@ =~= old(self).delete_queue(repo_id).push(m));
                }
            },
        }
    }

    /// Append one deferred reaction removal to this repository's queue.
    /// Touches no other repository's queues and neither the groups nor the
    /// seen list.
    pub fn queue_dereact_on_seen(&mut self, repo_id: u64, channel_id: u64, message_id: u64)
        requires
            old(self).wf(),
        ensures
            final(self).wf(),
            final(self).dereact_queue(repo_id) == old(self).dereact_queue(repo_id).push(
                (MsgRef { channel_id, message_id }),
            ),
            final(self).delete_queue(repo_id) == old(self).delete_queue(repo_id),
            forall|r2: u64|
                r2 != repo_id ==> final(self).delete_queue(r2) == old(self).delete_queue(r2)
                    && final(self).dereact_queue(r2) == old(self).dereact_queue(r2),
            final(self).groups == old(self).groups,
            final(self).seen == old(self).seen,
    {
        let m = MsgRef { channel_id, message_id };
        match self.queue_index(repo_id) {
            Some(k) => {
                proof {
                    lemma_queues_at(self.queues@, k as int);
                }
                let mut e = self.queues.remove(k);
                e.dereact_on_seen.push(m);
                let ghost enew = e;
                self.queues.insert(k, e);
                proof {
                    assert(self.queues@ =~= old(self).queues@.update(k as int, enew));
                    lemma_queues_update_same(old(self).queues@, k as int, enew);
                }
            },
            None => {
                let mut ders: Vec<MsgRef> = Vec::new();
                ders.push(m);
                let e = RepoQueues {
                    repo_id,
                    delete_on_seen: Vec::new(),
                    dereact_on_seen: ders,
                };
                let ghost enew = e;
                self.queues.push(e);
                proof {
                    lemma_queues_push_new(old(self).queues@, enew);
                    assert(enew.dereact_on_seen@ =~= old(self).dereact_queue(repo_id).push(m));
                }
            },
        }
    }

    /// Atomically read and clear both deferred-action queues of this
    /// repository, returning their prior contents. Safe on empty or absent
    /// queues: the result is then empty. Touches no other repository's
    /// queues and neither the groups nor the seen list.
    pub fn drain_on_seen(&mut self, repo_id: u64) -> (out: OnSeen)
        requires
            old(self).wf(),
        ensures
            final(self).wf(),
            out.deletions@ == old(self).delete_queue(repo_id),
            out.dereacts@ == old(self).dereact_queue(repo_id),
            final(self).delete_queue(repo_id) == Seq::<MsgRef>::empty(),
            final(self).dereact_queue(repo_id) == Seq::<MsgRef>::empty(),
            forall|r2: u64|
                r2 != repo_id ==> final(self).delete_queue(r2) == old(self).delete_queue(r2)
                    && final(self).dereact_queue(r2) == old(self).dereact_queue(r2),
            final(self).groups == old(self).groups,
            final(self).seen == old(self).seen,
    {
        match self.queue_index(repo_id) {
            Some(k) => {
                proof {
                    lemma_queues_at(self.queues@, k as int);
                }
                let e = self.queues.remove(k);
                proof {
                    lemma_queues_remove(old(self).queues@, k as int);
                }
                OnSeen { deletions: e.delete_on_seen, dereacts: e.dereact_on_seen }
            },
            None => OnSeen { deletions: Vec::new(), dereacts: Vec::new() },
        }
    }

    /// None of the listed chat messages belongs to a stored group yet.
    pub open spec fn messages_free(&self, message_ids: Seq<u64>) -> bool {
        forall|i: int| 0 <= i < message_ids.len() ==> !self.owns_message(#[trigger] message_ids[i])
    }

    /// Store a new mirror group under a caller-supplied identifier. Succeeds
    /// exactly when no group with that identifier exists yet and none of the
    /// listed messages belongs to another group; on a refusal the registry
    /// is unchanged, so a retry with the same identifier and fields cannot
    /// corrupt state.
    pub fn add_group_with_id(
        &mut self,
        id: String,
        repo_id: u64,
        path: String,
        channel_id: u64,
        message_ids: Vec<u64>,
    ) -> (r: Result<(), RegistryError>)
        requires
            old(self).wf(),
        ensures
            final(self).wf(),
            r is Ok <==> !old(self).has_group(id@) && old(self).messages_free(message_ids@),
            r is Ok ==> final(self).groups@ == old(self).groups@.push(
                (MirrorGroup { id, repo_id, path, channel_id, message_ids }),
            ),
            r is Err ==> *final(self) == *old(self),
            r == Err::<(), RegistryError>(RegistryError::IdCollision) <==> old(self).has_group(
                id@,
            ),
            r == Err::<(), RegistryError>(RegistryError::MessageInUse) <==> !old(self).has_group(
                id@,
            ) && !old(self).messages_free(message_ids@),
            final(self).seen == old(self).seen,
            final(self).queues == old(self).queues,
    {
        if self.contains_group(&id) {
            Err(RegistryError::IdCollision)
        } else if self.any_message_owned(&message_ids) {
            Err(RegistryError::MessageInUse)
        } else {
            let ghost msgs = message_ids@;
            self.groups.push(MirrorGroup { id, repo_id, path, channel_id, message_ids });
            proof {
                let gs = old(self).groups@;
                let g2 = self.groups@;
                assert forall|j: int, k: int, m: u64|
                    #![trigger g2[j].message_ids@.contains(m), g2[k].message_ids@.contains(m)]
                    0 <= j < k < g2.len() implies !(g2[j].message_ids@.contains(m)
                    && g2[k].message_ids@.contains(m)) by {
                    if k < gs.len() {
                        assert(g2[j] == gs[j] && g2[k] == gs[k]);
                    } else {
                        assert(g2[j] == gs[j]);
                        if g2[j].message_ids@.contains(m) && g2[k].message_ids@.contains(m) {
                            let i = choose|i: int| 0 <= i < msgs.len() && msgs[i] == m;
                            assert(old(self).owns_message(m));
                            assert(!old(self).owns_message(msgs[i]));
                            assert(false);
                        }
                    }
                }
            }
            Ok(())
        }
    }

    /// Create a mirror group under a freshly generated random identifier,
    /// re-rolling on collision a bounded number of times. On success the new
    /// group is appended with exactly the given fields and an identifier of
    /// the fixed length that no existing group carried. A message already
    /// owned by another group is refused outright; the identifier rolls can
    /// be exhausted only when at least one group exists to collide with, so
    /// on an empty registry creation always succeeds.
    pub fn create_group(
        &mut self,
        repo_id: u64,
        path: String,
        channel_id: u64,
        message_ids: Vec<u64>,
    ) -> (r: Result<String, RegistryError>)
        requires
            old(self).wf(),
        ensures
            final(self).wf(),
            match r {
                Ok(id) => {
                    &&& id@.len() == GROUP_ID_LEN
                    &&& forall|i: int|
                        0 <= i < id@.len() ==> crate::ident::is_alnum_char(#[trigger] id@[i])
                    &&& !old(self).has_group(id@)
                    &&& old(self).messages_free(message_ids@)
                    &&& final(self).groups@ == old(self).groups@.push(
                        (MirrorGroup { id, repo_id, path, channel_id, message_ids }),
                    )
                },
                Err(e) => (e == RegistryError::IdCollision || e == RegistryError::MessageInUse)
                    && *final(self) == *old(self),
            },
            r == Err::<String, RegistryError>(RegistryError::MessageInUse) <==> !old(
                self,
            ).messages_free(message_ids@),
            r == Err::<String, RegistryError>(RegistryError::IdCollision) ==> old(
                self,
            ).groups@.len() >= 1,
            old(self).groups@.len() == 0 ==> r is Ok,
            final(self).seen == old(self).seen,
            final(self).queues == old(self).queues,
    {
        if self.any_message_owned(&message_ids) {
            return Err(RegistryError::MessageInUse);
        }
        match self.fresh_ident() {
            Some(id) => {
                let out = id.clone();
                match self.add_group_with_id(id, repo_id, path, channel_id, message_ids) {
                    Ok(()) => Ok(out),
                    Err(e) => Err(e),
                }
            },
            None => Err(RegistryError::IdCollision),
        }
    }

    /// Whether any of the listed messages already belongs to a stored group.
    fn any_message_owned(&self, message_ids: &Vec<u64>) -> (r: bool)
        ensures
            r == !self.messages_free(message_ids@),
    {
        let mut i: usize = 0;
        while i < message_ids.len()
            invariant
                0 <= i <= message_ids@.len(),
                forall|j: int| 0 <= j < i ==> !self.owns_message(#[trigger] message_ids@[j]),
            decreases message_ids@.len() - i,
        {
            if self.group_of_message(message_ids[i]).is_some() {
                return true;
            }
            i = i + 1;
        }
        false
    }

    /// A randomly generated identifier that no existing group carries, if
    /// one was found within the bounded number of rolls. The rolls can run
    /// out only when some group exists to collide with: on an empty
    /// registry the first roll is always fresh.
    fn fresh_ident(&self) -> (r: Option<String>)
        ensures
            match r {
                Some(id) => {
                    &&& id@.len() == GROUP_ID_LEN
                    &&& forall|i: int|
                        0 <= i < id@.len() ==> crate::ident::is_alnum_char(#[trigger] id@[i])
                    &&& !self.has_group(id@)
                },
                None => self.groups@.len() >= 1,
            },
    {
        let mut attempt: usize = 0;
        while attempt < ID_ROLL_ATTEMPTS
            invariant
                attempt > 0 ==> self.groups@.len() >= 1,
            decreases ID_ROLL_ATTEMPTS - attempt,
        {
            let id = crate::ident::random_ident();
            if !self.contains_group(&id) {
                return Some(id);
            }
            attempt = attempt + 1;
        }
        None
    }

    /// Whether a group with this identifier exists.
    fn contains_group(&self, id: &String) -> (r: bool)
        ensures
            r == self.has_group(id@),
    {
        let mut k: usize = 0;
        while k < self.groups.len()
            invariant
                0 <= k <= self.groups@.len(),
                forall|j: int| 0 <= j < k ==> (#[trigger] self.groups@[j]).id@ != id@,
            decreases self.groups@.len() - k,
        {
            if self.groups[k].id == *id {
                return true;
            }
            k = k + 1;
        }
        false
    }

    /// The identifiers of all mirror groups of this repository, in the
    /// order the groups were created.
    pub fn lookup_groups_for_repo(&self, repo_id: u64) -> (ids: Vec<String>)
        ensures
            ids@.len() == repo_groups(self.groups@, repo_id).len(),
            forall|k: int|
                0 <= k < ids@.len() ==> (#[trigger] ids@[k])@ == repo_groups(
                    self.groups@,
                    repo_id,
                )[k].id@,
    {
        let ghost all = repo_groups(self.groups@, repo_id);
        let mut ids: Vec<String> = Vec::new();
        let mut i: usize = 0;
        while i < self.groups.len()
            invariant
                0 <= i <= self.groups@.len(),
                ids@.len() == repo_groups(self.groups@.take(i as int), repo_id).len(),
                forall|k: int|
                    0 <= k < ids@.len() ==> (#[trigger] ids@[k])@ == repo_groups(
                        self.groups@.take(i as int),
                        repo_id,
                    )[k].id@,
            decreases self.groups@.len() - i,
        {
            proof {
                assert(self.groups@.take(i + 1).drop_last() =~= self.groups@.take(i as int));
                assert(self.groups@.take(i + 1).last() == self.groups@[i as int]);
            }
            if self.groups[i].repo_id == repo_id {
                ids.push(self.groups[i].id.clone());
            }
            i = i + 1;
        }
        proof {
            assert(self.groups@.take(self.groups@.len() as int) =~= self.groups@);
        }
        ids
    }

    /// The stored group with this identifier, or `NotFound` when no such
    /// group exists.
    pub fn load_group(&self, id: &String) -> (r: Result<&MirrorGroup, RegistryError>)
        requires
            self.wf(),
        ensures
            match r {
                Ok(g) => self.has_group(id@) && *g == self.group_spec(id@),
                Err(e) => !self.has_group(id@) && e == RegistryError::NotFound,
            },
    {
        let mut k: usize = 0;
        while k < self.groups.len()
            invariant
                self.wf(),
                0 <= k <= self.groups@.len(),
                forall|j: int| 0 <= j < k ==> (#[trigger] self.groups@[j]).id@ != id@,
            decreases self.groups@.len() - k,
        {
            if self.groups[k].id == *id {
                proof {
                    lemma_group_at(*self, k as int);
                }
                return Ok(&self.groups[k]);
            }
            k = k + 1;
        }
        Err(RegistryError::NotFound)
    }

    /// Some stored group lists this message among its pre-allocated slots.
    pub open spec fn owns_message(&self, message_id: u64) -> bool {
        exists|k: int|
            0 <= k < self.groups@.len() && (#[trigger] self.groups@[k]).message_ids@.contains(
                message_id,
            )
    }

    /// The group owning this chat message, if any: the reverse lookup from
    /// a message to the mirror group whose slot it is.
    pub fn group_of_message(&self, message_id: u64) -> (r: Option<&MirrorGroup>)
        ensures
            match r {
                Some(g) => exists|k: int|
                    {
                        &&& 0 <= k < self.groups@.len()
                        &&& *g == self.groups@[k]
                        &&& (#[trigger] self.groups@[k]).message_ids@.contains(message_id)
                        &&& forall|j: int|
                            0 <= j < k ==> !(#[trigger] self.groups@[j]).message_ids@.contains(
                                message_id,
                            )
                    },
                None => !self.owns_message(message_id),
            },
    {
        let mut k: usize = 0;
        while k < self.groups.len()
            invariant
                0 <= k <= self.groups@.len(),
                forall|j: int|
                    0 <= j < k ==> !(#[trigger] self.groups@[j]).message_ids@.contains(message_id),
            decreases self.groups@.len() - k,
        {
            if vec_contains_u64(&self.groups[k].message_ids, message_id) {
                return Some(&self.groups[k]);
            }
            k = k + 1;
        }
        None
    }

    /// An index at which this repository's queue entry stands, if any.
    fn queue_index(&self, repo_id: u64) -> (r: Option<usize>)
        ensures
            match r {
                Some(k) => k < self.queues@.len() && self.queues@[k as int].repo_id == repo_id,
                None => !queues_has(self.queues@, repo_id),
            },
    {
        let mut k: usize = 0;
        while k < self.queues.len()
            invariant
                0 <= k <= self.queues@.len(),
                forall|j: int| 0 <= j < k ==> self.queues@[j].repo_id != repo_id,
            decreases self.queues@.len() - k,
        {
            if self.queues[k].repo_id == repo_id {
                return Some(k);
            }
            k = k + 1;
        }
        None
    }

    /// An index at which the repository stands in the seen list, if any.
    fn seen_index(&self, repo_id: u64) -> (r: Option<usize>)
        ensures
            match r {
                Some(k) => k < self.seen@.len() && self.seen@[k as int] == repo_id,
                None => !self.seen_spec(repo_id),
            },
    {
        let mut k: usize = 0;
        while k < self.seen.len()
            invariant
                0 <= k <= self.seen@.len(),
                forall|j: int| 0 <= j < k ==> self.seen@[j] != repo_id,
            decreases self.seen@.len() - k,
        {
            if self.seen[k] == repo_id {
                return Some(k);
            }
            k = k + 1;
        }
        None
    }
}

/// Law: draining is idempotent. A drain hands back exactly the queued
/// actions and leaves both queues empty, so a second drain in direct
/// succession returns empty — here stated over any two states and results
/// tied together as `drain_on_seen`'s contract ties them.
pub proof fn lemma_drain_twice_returns_empty(
    r0: Registry,
    r1: Registry,
    first: OnSeen,
    second: OnSeen,
    repo_id: u64,
)
    requires
        first.deletions@ == r0.delete_queue(repo_id),
        first.dereacts@ == r0.dereact_queue(repo_id),
        r1.delete_queue(repo_id) == Seq::<MsgRef>::empty(),
        r1.dereact_queue(repo_id) == Seq::<MsgRef>::empty(),
        second.deletions@ == r1.delete_queue(repo_id),
        second.dereacts@ == r1.dereact_queue(repo_id),
    ensures
        second.deletions@ == Seq::<MsgRef>::empty(),
        second.dereacts@ == Seq::<MsgRef>::empty(),
{
}

/// Law: an enqueue that lands between two drains is neither lost nor
/// delivered twice. After a drain both queues are empty; one enqueue then
/// leaves exactly that entry, and the next drain hands back exactly it.
pub proof fn lemma_enqueue_between_drains(
    r1: Registry,
    r2: Registry,
    second: OnSeen,
    repo_id: u64,
    channel_id: u64,
    message_id: u64,
)
    requires
        r1.delete_queue(repo_id) == Seq::<MsgRef>::empty(),
        r2.delete_queue(repo_id) == r1.delete_queue(repo_id).push(
            (MsgRef { channel_id, message_id }),
        ),
        second.deletions@ == r2.delete_queue(repo_id),
    ensures
        second.deletions@ =~= seq![MsgRef { channel_id, message_id }],
{
}

/// Whether the value occurs in the vector.
fn vec_contains_u64(v: &Vec<u64>, x: u64) -> (r: bool)
    ensures
        r == v@.contains(x),
{
    let mut k: usize = 0;
    while k < v.len()
        invariant
            0 <= k <= v@.len(),
            forall|j: int| 0 <= j < k ==> v@[j] != x,
        decreases v@.len() - k,
    {
        if v[k] == x {
            return true;
        }
        k = k + 1;
    }
    false
}

/// Under unique identifiers, the group with `groups[k]`'s identifier is
/// `groups[k]` itself.
proof fn lemma_group_at(r: Registry, k: int)
    requires
        r.wf(),
        0 <= k < r.groups@.len(),
    ensures
        r.has_group(r.groups@[k].id@),
        r.group_spec(r.groups@[k].id@) == r.groups@[k],
{
    assert(r.has_group(r.groups@[k].id@));
    let k2 = choose|k2: int|
        0 <= k2 < r.groups@.len() && (#[trigger] r.groups@[k2]).id@ == r.groups@[k].id@;
    if k2 < k {
        assert(r.groups@[k2].id@ != r.groups@[k].id@);
    } else if k < k2 {
        assert(r.groups@[k].id@ != r.groups@[k2].id@);
    }
    assert(k2 == k);
}

/// Under uniqueness, the entry for `qs[k].repo_id` is `qs[k]` itself.
proof fn lemma_queues_at(qs: Seq<RepoQueues>, k: int)
    requires
        queues_unique(qs),
        0 <= k < qs.len(),
    ensures
        queues_has(qs, qs[k].repo_id),
        queues_entry(qs, qs[k].repo_id) == qs[k],
        queues_delete(qs, qs[k].repo_id) == qs[k].delete_on_seen@,
        queues_dereact(qs, qs[k].repo_id) == qs[k].dereact_on_seen@,
{
    assert(queues_has(qs, qs[k].repo_id));
    let k2 = choose|k2: int| 0 <= k2 < qs.len() && (#[trigger] qs[k2]).repo_id == qs[k].repo_id;
    if k2 < k {
        assert(qs[k2].repo_id != qs[k].repo_id);
    } else if k < k2 {
        assert(qs[k].repo_id != qs[k2].repo_id);
    }
    assert(k2 == k);
}

/// Replacing the entry at `k` by one for the same repository keeps the
/// entries unique, gives that repository the new entry's queues, and leaves
/// every other repository's queues unchanged.
proof fn lemma_queues_update_same(qs: Seq<RepoQueues>, k: int, e: RepoQueues)
    requires
        queues_unique(qs),
        0 <= k < qs.len(),
        e.repo_id == qs[k].repo_id,
    ensures
        queues_unique(qs.update(k, e)),
        queues_delete(qs.update(k, e), e.repo_id) == e.delete_on_seen@,
        queues_dereact(qs.update(k, e), e.repo_id) == e.dereact_on_seen@,
        forall|r2: u64|
            r2 != e.repo_id ==> queues_delete(qs.update(k, e), r2) == queues_delete(qs, r2)
                && queues_dereact(qs.update(k, e), r2) == queues_dereact(qs, r2),
{
    let qs2 = qs.update(k, e);
    assert(queues_unique(qs2));
    lemma_queues_at(qs2, k);
    assert forall|r2: u64|
        r2 != e.repo_id implies queues_delete(qs2, r2) == queues_delete(qs, r2)
        && queues_dereact(qs2, r2) == queues_dereact(qs, r2) by {
        if queues_has(qs, r2) {
            let j = choose|j: int| 0 <= j < qs.len() && (#[trigger] qs[j]).repo_id == r2;
            assert(j != k);
            assert(qs2[j] == qs[j]);
            lemma_queues_at(qs, j);
            lemma_queues_at(qs2, j);
        } else if queues_has(qs2, r2) {
            let j = choose|j: int| 0 <= j < qs2.len() && (#[trigger] qs2[j]).repo_id == r2;
            assert(j != k);
            assert(qs[j] == qs2[j]);
        }
    }
}

/// Appending an entry for a repository that has none keeps the entries
/// unique, gives that repository the new entry's queues, and leaves every
/// other repository's queues unchanged.
proof fn lemma_queues_push_new(qs: Seq<RepoQueues>, e: RepoQueues)
    requires
        queues_unique(qs),
        !queues_has(qs, e.repo_id),
    ensures
        queues_unique(qs.push(e)),
        queues_delete(qs.push(e), e.repo_id) == e.delete_on_seen@,
        queues_dereact(qs.push(e), e.repo_id) == e.dereact_on_seen@,
        queues_delete(qs, e.repo_id) == Seq::<MsgRef>::empty(),
        queues_dereact(qs, e.repo_id) == Seq::<MsgRef>::empty(),
        forall|r2: u64|
            r2 != e.repo_id ==> queues_delete(qs.push(e), r2) == queues_delete(qs, r2)
                && queues_dereact(qs.push(e), r2) == queues_dereact(qs, r2),
{
    let qs2 = qs.push(e);
    let n = qs.len() as int;
    assert(qs2[n] == e);
    assert forall|j: int, k: int| 0 <= j < k < qs2.len() implies qs2[j].repo_id
        != qs2[k].repo_id by {
        if k < n {
            assert(qs2[j] == qs[j] && qs2[k] == qs[k]);
        } else {
            assert(qs2[j] == qs[j] && qs2[k] == e);
        }
    }
    lemma_queues_at(qs2, n);
    assert forall|r2: u64|
        r2 != e.repo_id implies queues_delete(qs2, r2) == queues_delete(qs, r2)
        && queues_dereact(qs2, r2) == queues_dereact(qs, r2) by {
        if queues_has(qs, r2) {
            let j = choose|j: int| 0 <= j < qs.len() && (#[trigger] qs[j]).repo_id == r2;
            assert(qs2[j] == qs[j]);
            lemma_queues_at(qs, j);
            lemma_queues_at(qs2, j);
        } else if queues_has(qs2, r2) {
            let j = choose|j: int| 0 <= j < qs2.len() && (#[trigger] qs2[j]).repo_id == r2;
            assert(j < n);
            assert(qs[j] == qs2[j]);
        }
    }
}

/// Removing the entry at `k` keeps the entries unique, leaves its
/// repository with no entry (hence empty queues), and leaves every other
/// repository's queues unchanged.
proof fn lemma_queues_remove(qs: Seq<RepoQueues>, k: int)
    requires
        queues_unique(qs),
        0 <= k < qs.len(),
    ensures
        queues_unique(qs.remove(k)),
        !queues_has(qs.remove(k), qs[k].repo_id),
        forall|r2: u64|
            r2 != qs[k].repo_id ==> queues_delete(qs.remove(k), r2) == queues_delete(qs, r2)
                && queues_dereact(qs.remove(k), r2) == queues_dereact(qs, r2),
{
    let qs2 = qs.remove(k);
    assert forall|j: int, j2: int| 0 <= j < j2 < qs2.len() implies qs2[j].repo_id
        != qs2[j2].repo_id by {
        let a: int = if j < k {
            j
        } else {
            j + 1
        };
        let b: int = if j2 < k {
            j2
        } else {
            j2 + 1
        };
        assert(qs2[j] == qs[a] && qs2[j2] == qs[b]);
    }
    assert forall|j: int| 0 <= j < qs2.len() implies qs2[j].repo_id != qs[k].repo_id by {
        if j < k {
            assert(qs2[j] == qs[j]);
        } else {
            assert(qs2[j] == qs[j + 1]);
        }
    }
    assert forall|r2: u64|
        r2 != qs[k].repo_id implies queues_delete(qs2, r2) == queues_delete(qs, r2)
        && queues_dereact(qs2, r2) == queues_dereact(qs, r2) by {
        if queues_has(qs, r2) {
            let j = choose|j: int| 0 <= j < qs.len() && (#[trigger] qs[j]).repo_id == r2;
            assert(j != k);
            let j2: int = if j < k {
                j
            } else {
                j - 1
            };
            assert(qs2[j2] == qs[j]);
            lemma_queues_at(qs, j);
            lemma_queues_at(qs2, j2);
        } else if queues_has(qs2, r2) {
            let j = choose|j: int| 0 <= j < qs2.len() && (#[trigger] qs2[j]).repo_id == r2;
            let a: int = if j < k {
                j
            } else {
                j + 1
            };
            assert(qs[a] == qs2[j]);
        }
    }
}

/// After removing the only occurrence of `x` (at index `k`) from a
/// duplicate-free sequence, `x` is gone and every other element's
/// membership is unchanged, as is duplicate-freedom.
proof fn lemma_remove_unique(s: Seq<u64>, k: int, x: u64)
    requires
        0 <= k < s.len(),
        s[k] == x,
        forall|i: int, j: int| 0 <= i < j < s.len() ==> s[i] != s[j],
    ensures
        !s.remove(k).contains(x),
        forall|y: u64| y != x ==> s.remove(k).contains(y) == s.contains(y),
        forall|i: int, j: int|
            0 <= i < j < s.remove(k).len() ==> s.remove(k)[i] != s.remove(k)[j],
{
    let t = s.remove(k);
    assert forall|i: int| 0 <= i < t.len() implies t[i] != x by {
        if i < k {
            assert(t[i] == s[i]);
        } else {
            assert(t[i] == s[i + 1]);
        }
    }
    assert forall|y: u64| y != x && s.contains(y) implies t.contains(y) by {
        let i = choose|i: int| 0 <= i < s.len() && s[i] == y;
        if i < k {
            assert(t[i] == s[i]);
        } else {
            assert(t[i - 1] == s[i]);
        }
    }
    assert forall|y: u64| y != x && t.contains(y) implies s.contains(y) by {
        let i = choose|i: int| 0 <= i < t.len() && t[i] == y;
        if i < k {
            assert(s[i] == t[i]);
        } else {
            assert(s[i + 1] == t[i]);
        }
    }
}

/// Membership in a sequence extended by one element.
proof fn lemma_push_contains(s: Seq<u64>, x: u64)
    ensures
        s.push(x).contains(x),
        forall|y: u64| s.push(x).contains(y) == (s.contains(y) || y == x),
{
    assert(s.push(x)[s.len() as int] == x);
    assert forall|y: u64| s.push(x).contains(y) == (s.contains(y) || y == x) by {
        if s.contains(y) {
            let i = choose|i: int| 0 <= i < s.len() && s[i] == y;
            assert(s.push(x)[i] == y);
        }
        if s.push(x).contains(y) {
            let i = choose|i: int| 0 <= i < s.push(x).len() && s.push(x)[i] == y;
            if i < s.len() {
                assert(s[i] == y);
            }
        }
    }
}

} // verus!
