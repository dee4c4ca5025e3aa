//! The ingestion side: the seen-state machine over the registry and the
//! fan-out that turns upstream events into bus messages. Every function
//! here only decides and mutates registry state; the caller performs the
//! actual publishes.

use vstd::prelude::*;

use crate::bus::{OnSeen, Update};
use crate::registry::{repo_groups, MsgRef, Registry};
use crate::schema::{
    installation_repositories_seen_spec, installation_seen_spec, repo_seen_spec,
    InstallationEvent, InstallationRepositoriesEvent, PushEvent, Repo, RepoEvent,
};
use crate::urls::{find_char, raw_url_spec};

verus! {

/// A seen intent publishes exactly when it is `true` and the repository was
/// not seen before: the false-to-true transition.
pub open spec fn publishes_on_seen(r: Registry, repo_id: u64, seen: bool) -> bool {
    seen && !r.seen_spec(repo_id)
}

/// What one seen intent for one repository does: the flag ends at `seen`,
/// nothing else moves, and exactly a false-to-true transition hands back the
/// drained queues for publication.
pub open spec fn single_intent_outcome(
    r0: Registry,
    r1: Registry,
    repo_id: u64,
    seen: bool,
    out: Option<OnSeen>,
) -> bool {
    &&& r1.wf()
    &&& r1.groups == r0.groups
    &&& out is Some == publishes_on_seen(r0, repo_id, seen)
    &&& r1.seen_spec(repo_id) == seen
    &&& forall|x: u64| x != repo_id ==> r1.seen_spec(x) == r0.seen_spec(x)
    &&& match out {
        Some(o) => {
            &&& o.deletions@ == r0.delete_queue(repo_id)
            &&& o.dereacts@ == r0.dereact_queue(repo_id)
            &&& r1.delete_queue(repo_id) == Seq::<MsgRef>::empty()
            &&& r1.dereact_queue(repo_id) == Seq::<MsgRef>::empty()
        },
        None => {
            &&& r1.delete_queue(repo_id) == r0.delete_queue(repo_id)
            &&& r1.dereact_queue(repo_id) == r0.dereact_queue(repo_id)
        },
    }
    &&& forall|x: u64|
        x != repo_id ==> r1.delete_queue(x) == r0.delete_queue(x) && r1.dereact_queue(x)
            == r0.dereact_queue(x)
}

/// Apply one seen intent: set the flag, and on a false-to-true transition
/// atomically drain the deferred-action queues, returning the payload to
/// publish. Repeated intents with no change return nothing.
pub fn apply_seen_intent(reg: &mut Registry, repo_id: u64, seen: bool) -> (r: Option<OnSeen>)
    requires
        old(reg).wf(),
    ensures
        single_intent_outcome(*old(reg), *final(reg), repo_id, seen, r),
{
    let changed = reg.set_seen(repo_id, seen);
    if seen && changed {
        Some(reg.drain_on_seen(repo_id))
    } else {
        None
    }
}

/// Law: a true intent applied twice in a row publishes exactly once. The
/// first application publishes exactly when the repository was not yet
/// seen; the second finds it seen and publishes nothing.
pub proof fn lemma_true_intent_publishes_once(
    r0: Registry,
    r1: Registry,
    r2: Registry,
    repo_id: u64,
    out1: Option<OnSeen>,
    out2: Option<OnSeen>,
)
    requires
        single_intent_outcome(r0, r1, repo_id, true, out1),
        single_intent_outcome(r1, r2, repo_id, true, out2),
    ensures
        (out1 is Some) == !r0.seen_spec(repo_id),
        out2 is None,
{
}

/// Law: a false intent never publishes.
pub proof fn lemma_false_intent_never_publishes(
    r0: Registry,
    r1: Registry,
    repo_id: u64,
    out: Option<OnSeen>,
)
    requires
        single_intent_outcome(r0, r1, repo_id, false, out),
    ensures
        out is None,
{
}

/// The repositories, in order, for which a true intent over `ids` against
/// the starting state `r` transitions to seen and therefore publishes: the
/// not-yet-seen ones, each counted at its first occurrence only.
pub open spec fn onseen_targets(r: Registry, ids: Seq<u64>) -> Seq<u64>
    decreases ids.len(),
{
    if ids.len() == 0 {
        Seq::empty()
    } else {
        let rest = onseen_targets(r, ids.drop_last());
        let x = ids.last();
        if !r.seen_spec(x) && !ids.drop_last().contains(x) {
            rest.push(x)
        } else {
            rest
        }
    }
}

/// What one seen intent over a list of repositories does: every listed
/// repository's flag ends at `seen`, and on a true intent exactly the
/// repositories transitioning to seen have their queues drained and
/// published, one payload each, in order.
pub open spec fn multi_intent_outcome(
    r0: Registry,
    r1: Registry,
    ids: Seq<u64>,
    seen: bool,
    out: Seq<OnSeen>,
) -> bool {
    &&& r1.wf()
    &&& r1.groups == r0.groups
    &&& forall|x: u64|
        r1.seen_spec(x) == (if seen {
            r0.seen_spec(x) || ids.contains(x)
        } else {
            r0.seen_spec(x) && !ids.contains(x)
        })
    &&& out.len() == (if seen {
        onseen_targets(r0, ids).len()
    } else {
        0nat
    })
    &&& (seen ==> forall|k: int|
        0 <= k < out.len() ==> (#[trigger] out[k]).deletions@ == r0.delete_queue(
            onseen_targets(r0, ids)[k],
        ) && out[k].dereacts@ == r0.dereact_queue(onseen_targets(r0, ids)[k]))
    &&& forall|x: u64|
        (seen && !r0.seen_spec(x) && ids.contains(x)) ==> r1.delete_queue(x) == Seq::<
            MsgRef,
        >::empty() && r1.dereact_queue(x) == Seq::<MsgRef>::empty()
    &&& forall|x: u64|
        !(seen && !r0.seen_spec(x) && ids.contains(x)) ==> r1.delete_queue(x)
            == r0.delete_queue(x) && r1.dereact_queue(x) == r0.dereact_queue(x)
}

/// Apply one seen intent to every listed repository in order, collecting
/// the payload of each false-to-true transition.
pub fn apply_seen_intent_multi(reg: &mut Registry, repo_ids: &Vec<u64>, seen: bool) -> (out: Vec<
    OnSeen,
>)
    requires
        old(reg).wf(),
    ensures
        multi_intent_outcome(*old(reg), *final(reg), repo_ids@, seen, out@),
{
    let ghost r0 = *old(reg);
    let ghost ids = repo_ids@;
    let mut out: Vec<OnSeen> = Vec::new();
    let mut i: usize = 0;
    proof {
        assert(ids.take(0) =~= Seq::<u64>::empty());
        lemma_multi_base(r0, seen);
    }
    while i < repo_ids.len()
        invariant
            0 <= i <= ids.len(),
            ids == repo_ids@,
            reg.wf(),
            multi_intent_outcome(r0, *reg, ids.take(i as int), seen, out@),
        decreases ids.len() - i,
    {
        let x = repo_ids[i];
        let ghost pre = *reg;
        let ghost out_pre = out@;
        let r = apply_seen_intent(reg, x, seen);
        let ghost rg = r;
        match r {
            Some(o) => {
                out.push(o);
            },
            None => {},
        }
        proof {
            lemma_multi_step(r0, pre, *reg, ids, i as int, seen, out_pre, rg, out@);
        }
        i = i + 1;
    }
    proof {
        assert(ids.take(ids.len() as int) =~= ids);
    }
    out
}

/// The outcome of applying no intents at all: the state is untouched and
/// nothing is published.
proof fn lemma_multi_base(r0: Registry, seen: bool)
    requires
        r0.wf(),
    ensures
        multi_intent_outcome(r0, r0, Seq::<u64>::empty(), seen, Seq::<OnSeen>::empty()),
{
    assert(onseen_targets(r0, Seq::<u64>::empty()) =~= Seq::<u64>::empty());
}

/// Chaining one more intent onto a multi-intent outcome yields the
/// multi-intent outcome over the one-longer prefix.
proof fn lemma_multi_step(
    r0: Registry,
    r1: Registry,
    r2: Registry,
    ids: Seq<u64>,
    i: int,
    seen: bool,
    out1: Seq<OnSeen>,
    r: Option<OnSeen>,
    out2: Seq<OnSeen>,
)
    requires
        0 <= i < ids.len(),
        multi_intent_outcome(r0, r1, ids.take(i), seen, out1),
        single_intent_outcome(r1, r2, ids[i], seen, r),
        out2 == (match r {
            Some(o) => out1.push(o),
            None => out1,
        }),
    ensures
        multi_intent_outcome(r0, r2, ids.take(i + 1), seen, out2),
{
    let t = ids.take(i);
    let t2 = ids.take(i + 1);
    let x = ids[i];
    assert(t2.drop_last() =~= t);
    assert(t2.last() == x);
    lemma_take_contains_step(ids, i);
    let fresh = !r0.seen_spec(x) && !t.contains(x);
    assert(onseen_targets(r0, t2) == (if fresh {
        onseen_targets(r0, t).push(x)
    } else {
        onseen_targets(r0, t)
    }));
    // the final seen flags
    assert forall|y: u64|
        r2.seen_spec(y) == (if seen {
            r0.seen_spec(y) || t2.contains(y)
        } else {
            r0.seen_spec(y) && !t2.contains(y)
        }) by {
        if y != x {
            assert(r2.seen_spec(y) == r1.seen_spec(y));
        }
    }
    // the intermediate state's flag at x decides the publish
    assert(r1.seen_spec(x) == (if seen {
        r0.seen_spec(x) || t.contains(x)
    } else {
        r0.seen_spec(x) && !t.contains(x)
    }));
    // the published payloads
    if seen {
        match r {
            Some(o) => {
                assert(!r1.seen_spec(x));
                assert(fresh);
                assert(!(seen && !r0.seen_spec(x) && t.contains(x)));
                assert(r1.delete_queue(x) == r0.delete_queue(x));
                assert(r1.dereact_queue(x) == r0.dereact_queue(x));
                assert(onseen_targets(r0, t2) == onseen_targets(r0, t).push(x));
                assert(out2.len() == onseen_targets(r0, t2).len());
                assert forall|k: int|
                    0 <= k < out2.len() implies (#[trigger] out2[k]).deletions@ == r0.delete_queue(
                    onseen_targets(r0, t2)[k],
                ) && out2[k].dereacts@ == r0.dereact_queue(onseen_targets(r0, t2)[k]) by {
                    if k < out1.len() {
                        assert(out2[k] == out1[k]);
                        assert(onseen_targets(r0, t2)[k] == onseen_targets(r0, t)[k]);
                    } else {
                        assert(out2[k] == o);
                        assert(onseen_targets(r0, t2)[k] == x);
                    }
                }
            },
            None => {
                assert(r1.seen_spec(x));
                assert(!fresh);
            },
        }
    }
    // the queues
    assert forall|y: u64|
        (seen && !r0.seen_spec(y) && t2.contains(y)) implies r2.delete_queue(y) == Seq::<
        MsgRef,
    >::empty() && r2.dereact_queue(y) == Seq::<MsgRef>::empty() by {
        if y != x {
            assert(t.contains(y));
            assert(r2.delete_queue(y) == r1.delete_queue(y));
            assert(r2.dereact_queue(y) == r1.dereact_queue(y));
        } else {
            if r is None {
                assert(r1.seen_spec(x));
                assert(r0.seen_spec(x) || t.contains(x));
                assert(r1.delete_queue(x) == Seq::<MsgRef>::empty());
                assert(r1.dereact_queue(x) == Seq::<MsgRef>::empty());
            }
        }
    }
    assert forall|y: u64|
        !(seen && !r0.seen_spec(y) && t2.contains(y)) implies r2.delete_queue(y)
        == r0.delete_queue(y) && r2.dereact_queue(y) == r0.dereact_queue(y) by {
        if y != x {
            assert(!(seen && !r0.seen_spec(y) && t.contains(y)));
            assert(r2.delete_queue(y) == r1.delete_queue(y));
            assert(r2.dereact_queue(y) == r1.dereact_queue(y));
        } else {
            assert(!(seen && !r0.seen_spec(x)));
            assert(r is None);
            assert(r2.delete_queue(x) == r1.delete_queue(x));
            assert(!(seen && !r0.seen_spec(x) && t.contains(x)));
        }
    }
}

/// Membership in `s.take(i + 1)` is membership in `s.take(i)` or equality
/// with `s[i]`.
proof fn lemma_take_contains_step(s: Seq<u64>, i: int)
    requires
        0 <= i < s.len(),
    ensures
        forall|y: u64| s.take(i + 1).contains(y) == (s.take(i).contains(y) || s[i] == y),
{
    assert(s.take(i + 1) =~= s.take(i).push(s[i]));
    assert forall|y: u64|
        s.take(i + 1).contains(y) == (s.take(i).contains(y) || s[i] == y) by {
        if s.take(i).contains(y) {
            let j = choose|j: int| 0 <= j < i && s.take(i)[j] == y;
            assert(s.take(i + 1)[j] == y);
        }
        if s[i] == y {
            assert(s.take(i + 1)[i] == y);
        }
        if s.take(i + 1).contains(y) {
            let j = choose|j: int| 0 <= j <= i && #[trigger] s.take(i + 1)[j] == y;
            if j < i {
                assert(s.take(i)[j] == y);
            }
        }
    }
}

/// The numeric ids of a list of repositories, in order.
pub open spec fn repo_ids_spec(rs: Seq<Repo>) -> Seq<u64> {
    rs.map_values(|r: Repo| r.id)
}

/// Handle an installation lifecycle event: apply the action's seen intent
/// to every repository the event lists.
pub fn handle_installation_event(reg: &mut Registry, ev: &InstallationEvent) -> (out: Vec<OnSeen>)
    requires
        old(reg).wf(),
    ensures
        multi_intent_outcome(
            *old(reg),
            *final(reg),
            repo_ids_spec(ev.repositories@),
            installation_seen_spec(ev.action),
            out@,
        ),
{
    let ids = collect_repo_ids(&ev.repositories);
    let seen = ev.action.seen();
    apply_seen_intent_multi(reg, &ids, seen)
}

/// Handle an installation-repositories event: the action's seen intent is
/// applied to the added and then the removed repositories, as one pass.
pub fn handle_installation_repositories_event(
    reg: &mut Registry,
    ev: &InstallationRepositoriesEvent,
) -> (out: Vec<OnSeen>)
    requires
        old(reg).wf(),
    ensures
        multi_intent_outcome(
            *old(reg),
            *final(reg),
            repo_ids_spec(ev.repositories_added@) + repo_ids_spec(ev.repositories_removed@),
            installation_repositories_seen_spec(ev.action),
            out@,
        ),
{
    let mut ids = collect_repo_ids(&ev.repositories_added);
    let mut removed = collect_repo_ids(&ev.repositories_removed);
    ids.append(&mut removed);
    proof {
        assert(ids@ =~= repo_ids_spec(ev.repositories_added@) + repo_ids_spec(
            ev.repositories_removed@,
        ));
    }
    let seen = ev.action.seen();
    apply_seen_intent_multi(reg, &ids, seen)
}

/// Handle a repository lifecycle event: apply its seen intent, if it has
/// one; a transfer changes nothing.
pub fn handle_repo_event(reg: &mut Registry, ev: &RepoEvent) -> (r: Option<OnSeen>)
    requires
        old(reg).wf(),
    ensures
        match repo_seen_spec(ev.action) {
            Some(s) => single_intent_outcome(*old(reg), *final(reg), ev.repository.id, s, r),
            None => *final(reg) == *old(reg) && r is None,
        },
{
    match ev.action.seen() {
        Some(s) => apply_seen_intent(reg, ev.repository.id, s),
        None => None,
    }
}

/// The ids of the listed repositories, in order.
fn collect_repo_ids(rs: &Vec<Repo>) -> (ids: Vec<u64>)
    ensures
        ids@ == repo_ids_spec(rs@),
{
    let mut ids: Vec<u64> = Vec::new();
    let mut i: usize = 0;
    while i < rs.len()
        invariant
            0 <= i <= rs@.len(),
            ids@ == repo_ids_spec(rs@.take(i as int)),
        decreases rs@.len() - i,
    {
        ids.push(rs[i].id);
        proof {
            assert(ids@ =~= repo_ids_spec(rs@.take(i + 1)));
        }
        i = i + 1;
    }
    proof {
        assert(rs@.take(rs@.len() as int) =~= rs@);
    }
    ids
}

/// Why a push event could not be fanned out.
#[derive(Clone, Copy, PartialEq, Eq, Structural, Debug)]
pub enum PushError {
    /// The repository's `owner/name` pair holds no slash.
    MalformedRepoName,
}

/// One `Update` per mirror group of the pushed repository, in creation
/// order: the group's bound channel and messages, and the raw-content URL
/// of its path under `user/repo_name`. Deliberately not gated on the seen
/// state: updates are attempted for unseen repositories too.
pub fn updates_for_push(reg: &Registry, repo_id: u64, user: &str, repo_name: &str) -> (out: Vec<
    Update,
>)
    ensures
        out@.len() == repo_groups(reg.groups@, repo_id).len(),
        forall|k: int|
            0 <= k < out@.len() ==> {
                let g = repo_groups(reg.groups@, repo_id)[k];
                (#[trigger] out@[k]).channel_id == g.channel_id && out@[k].message_ids@
                    == g.message_ids@ && out@[k].url@ == raw_url_spec(user@, repo_name@, g.path@)
            },
{
    let mut out: Vec<Update> = Vec::new();
    let mut i: usize = 0;
    while i < reg.groups.len()
        invariant
            0 <= i <= reg.groups@.len(),
            out@.len() == repo_groups(reg.groups@.take(i as int), repo_id).len(),
            forall|k: int|
                0 <= k < out@.len() ==> {
                    let g = repo_groups(reg.groups@.take(i as int), repo_id)[k];
                    (#[trigger] out@[k]).channel_id == g.channel_id && out@[k].message_ids@
                        == g.message_ids@ && out@[k].url@ == raw_url_spec(
                        user@,
                        repo_name@,
                        g.path@,
                    )
                },
        decreases reg.groups@.len() - i,
    {
        proof {
            assert(reg.groups@.take(i + 1).drop_last() =~= reg.groups@.take(i as int));
            assert(reg.groups@.take(i + 1).last() == reg.groups@[i as int]);
        }
        if reg.groups[i].repo_id == repo_id {
            let url = crate::urls::raw_content_url(user, repo_name, reg.groups[i].path.as_str());
            let mids = clone_u64_vec(&reg.groups[i].message_ids);
            out.push(Update { channel_id: reg.groups[i].channel_id, message_ids: mids, url });
        }
        i = i + 1;
    }
    proof {
        assert(reg.groups@.take(reg.groups@.len() as int) =~= reg.groups@);
    }
    out
}

/// Handle an upstream content push: split the repository's `owner/name`
/// pair and build one `Update` per mirror group of that repository. A pair
/// without a slash is malformed and yields no updates.
pub fn handle_push_event(reg: &Registry, ev: &PushEvent) -> (r: Result<Vec<Update>, PushError>)
    ensures
        match r {
            Ok(out) => {
                let full = ev.repository.full_name@;
                let i = find_char(full, '/', 0);
                let j = find_char(full, '/', i + 1);
                &&& i < full.len()
                &&& out@.len() == repo_groups(reg.groups@, ev.repository.id).len()
                &&& forall|k: int|
                    0 <= k < out@.len() ==> {
                        let g = repo_groups(reg.groups@, ev.repository.id)[k];
                        (#[trigger] out@[k]).channel_id == g.channel_id && out@[k].message_ids@
                            == g.message_ids@ && out@[k].url@ == raw_url_spec(
                            full.take(i),
                            full.subrange(i + 1, j),
                            g.path@,
                        )
                    }
            },
            Err(e) => {
                &&& e == PushError::MalformedRepoName
                &&& find_char(ev.repository.full_name@, '/', 0)
                    == ev.repository.full_name@.len()
            },
        },
{
    match crate::urls::split_full_name(ev.repository.full_name.as_str()) {
        Some((user, name)) => Ok(
            updates_for_push(reg, ev.repository.id, user.as_str(), name.as_str()),
        ),
        None => Err(PushError::MalformedRepoName),
    }
}

/// A copy of the vector, element for element.
fn clone_u64_vec(v: &Vec<u64>) -> (r: Vec<u64>)
    ensures
        r@ == v@,
{
    let mut r: Vec<u64> = Vec::new();
    let mut i: usize = 0;
    while i < v.len()
        invariant
            0 <= i <= v@.len(),
            r@ == v@.take(i as int),
        decreases v@.len() - i,
    {
        r.push(v[i]);
        proof {
            assert(r@ =~= v@.take(i + 1));
        }
        i = i + 1;
    }
    proof {
        assert(v@.take(v@.len() as int) =~= v@);
    }
    r
}

} // verus!
