//! The supervisor's decision logic. Each command is one cycle: the watch
//! command checks the id, then (after the caller has canonicalized the root
//! and subscribed it with the operating system) records the watch; the
//! unwatch command removes the watch and hands its root back so the caller
//! can drop the matching subscription. Event delivery classifies one raw
//! event against every active watch in registry order. The caller performs
//! the blocking work — reading commands, subscribing, emitting — around these
//! functions, holding the registry for one whole cycle at a time so that
//! registry and subscription set only ever change together.

use vstd::prelude::*;
use crate::event::{
    classify, classify_event, event_watch_id, lemma_classify_nonempty_iff_touches,
    lemma_classify_tagged, lemma_untouched_classifies_to_nothing, touches, views_of, RawEvent,
    SemanticEvent, SemanticEventModel,
};
use crate::path::is_under;
use crate::registry::{
    contains_id, ids_unique, index_of_id, lemma_index_of_id_unique, lemma_push_fresh_id_unique,
    Registry, WatchModel,
};

verus! {

/// Why a command was refused.
#[derive(Debug, Clone, Copy, PartialEq, Eq)]
pub enum ErrorKind {
    /// A watch command reused an id that is still active.
    AlreadyRegistered,
    /// The requested root could not be canonicalized.
    UnresolvablePath,
    /// The operating system refused to subscribe the root.
    SubscriptionFailure,
    /// An unwatch command named an id that was never registered.
    UnknownWatchId,
}

/// The reply to one command: an acknowledgement or an error, both carrying
/// the originating command's id.
#[derive(Debug, Clone, Copy, PartialEq, Eq)]
pub enum Response {
    Accepted { id: usize },
    Refused { id: usize, kind: ErrorKind },
}

/// First step of the watch command: refuse an id that is already active,
/// before any canonicalization or subscription is attempted.
pub fn watch_precheck(reg: &Registry, id: usize) -> (r: Option<Response>)
    ensures
        contains_id(reg@, id) ==> r == Some(
            (Response::Refused { id, kind: ErrorKind::AlreadyRegistered }),
        ),
        !contains_id(reg@, id) ==> r == None::<Response>,
{
    if reg.contains(id) {
        Some(Response::Refused { id, kind: ErrorKind::AlreadyRegistered })
    } else {
        None
    }
}

/// Last step of the watch command, once the root has been canonicalized and
/// subscribed: record the watch and acknowledge. The id is checked again, so
/// the response is exact even for a caller that skipped the precheck.
pub fn watch_commit(reg: &mut Registry, id: usize, canonical_root: Vec<u8>) -> (r: Response)
    requires
        old(reg).wf(),
    ensures
        final(reg).wf(),
        contains_id(old(reg)@, id) ==> r == (Response::Refused {
            id,
            kind: ErrorKind::AlreadyRegistered,
        }) && final(reg)@ == old(reg)@,
        !contains_id(old(reg)@, id) ==> r == (Response::Accepted { id }) && final(reg)@ == old(
            reg,
        )@.push((WatchModel { id, root: canonical_root@ })),
{
    match reg.insert(id, canonical_root) {
        Ok(()) => Response::Accepted { id },
        Err(_) => Response::Refused { id, kind: ErrorKind::AlreadyRegistered },
    }
}

/// The whole unwatch command: remove the watch and acknowledge, handing the
/// removed root back so the caller can drop the matching subscription; an id
/// that was never registered is refused and nothing changes.
pub fn handle_unwatch(reg: &mut Registry, id: usize) -> (r: (Response, Option<Vec<u8>>))
    requires
        old(reg).wf(),
    ensures
        final(reg).wf(),
        !contains_id(old(reg)@, id) ==> r.0 == (Response::Refused {
            id,
            kind: ErrorKind::UnknownWatchId,
        }) && r.1 == None::<Vec<u8>> && final(reg)@ == old(reg)@,
        contains_id(old(reg)@, id) ==> ({
            let at = index_of_id(old(reg)@, id);
            match r.1 {
                Some(root) => r.0 == (Response::Accepted { id }) && root@ == old(reg)@[at].root
                    && final(reg)@ == old(reg)@.remove(at),
                None => false,
            }
        }),
{
    match reg.remove(id) {
        Ok(root) => (Response::Accepted { id }, Some(root)),
        Err(_) => (Response::Refused { id, kind: ErrorKind::UnknownWatchId }, None),
    }
}

/// What delivering one raw event to every watch in `s`, in order, emits: the
/// concatenation of each watch's classification of the event.
pub open spec fn dispatch(s: Seq<WatchModel>, ev: RawEvent) -> Seq<SemanticEventModel>
    decreases s.len(),
{
    if s.len() == 0 {
        Seq::empty()
    } else {
        dispatch(s.drop_last(), ev) + classify(ev, s.last().id, s.last().root)
    }
}

/// Delivers one raw event to every active watch: classifies it against each
/// watch in registry order and returns all resulting semantic events.
pub fn dispatch_event(reg: &Registry, ev: &RawEvent) -> (out: Vec<SemanticEvent>)
    ensures
        views_of(out@) == dispatch(reg@, *ev),
{
    let mut out: Vec<SemanticEvent> = Vec::new();
    let n = reg.len();
    let mut i: usize = 0;
    proof {
        assert(reg@.take(0) =~= Seq::<WatchModel>::empty());
    }
    while i < n
        invariant
            i <= n,
            n == reg@.len(),
            views_of(out@) == dispatch(reg@.take(i as int), *ev),
        decreases n - i,
    {
        let w = reg.watch_at(i);
        let mut evs = classify_event(w.id, &w.root, ev);
        let ghost o0 = out@;
        let ghost e0 = evs@;
        out.append(&mut evs);
        proof {
            assert(views_of(o0 + e0) =~= views_of(o0) + views_of(e0));
            let t1 = reg@.take(i + 1);
            assert(t1.drop_last() =~= reg@.take(i as int));
            assert(t1.last() == reg@[i as int]);
            assert(views_of(e0) == classify(*ev, t1.last().id, t1.last().root));
            assert(views_of(out@) == dispatch(t1, *ev));
        }
        i += 1;
    }
    proof {
        assert(reg@.take(n as int) =~= reg@);
    }
    out
}

/// Law: a watch command followed at once by the matching unwatch restores the
/// registry — and with it the set of subscribed roots, which every caller
/// keeps in lockstep with it — exactly as it was before the pair.
pub proof fn lemma_watch_then_unwatch(s: Seq<WatchModel>, id: usize, root: Seq<u8>)
    requires
        ids_unique(s),
        !contains_id(s, id),
    ensures
        ({
            let s1 = s.push((WatchModel { id, root }));
            &&& ids_unique(s1)
            &&& contains_id(s1, id)
            &&& index_of_id(s1, id) == s.len()
            &&& s1.remove(s.len() as int) == s
        }),
{
    let s1 = s.push(WatchModel { id, root });
    assert(s1[s.len() as int].id == id);
    lemma_push_fresh_id_unique(s, WatchModel { id, root });
    lemma_index_of_id_unique(s1, id, s.len() as int);
    assert(s1.remove(s.len() as int) =~= s);
}

/// Law: a second watch command reusing an id that is still active finds it
/// registered, so by the commit contract it is refused as already registered
/// and leaves the registry unchanged, while the first command was accepted.
pub proof fn lemma_watch_twice_same_id(s: Seq<WatchModel>, id: usize, root: Seq<u8>)
    requires
        ids_unique(s),
        !contains_id(s, id),
    ensures
        ids_unique(s.push((WatchModel { id, root }))),
        contains_id(s.push((WatchModel { id, root })), id),
{
    let s1 = s.push(WatchModel { id, root });
    assert(s1[s.len() as int].id == id);
    lemma_push_fresh_id_unique(s, WatchModel { id, root });
}

/// Law: a raw event none of whose paths lies under any registered root is
/// invisible: dispatching it emits no semantic events at all.
pub proof fn lemma_untouched_event_silent(s: Seq<WatchModel>, ev: RawEvent)
    requires
        forall|i: int| #![trigger s[i]] 0 <= i < s.len() ==> !touches(ev, s[i].root),
    ensures
        dispatch(s, ev) == Seq::<SemanticEventModel>::empty(),
    decreases s.len(),
{
    if s.len() == 0 {
        assert(dispatch(s, ev) =~= Seq::<SemanticEventModel>::empty());
    } else {
        let dl = s.drop_last();
        assert(!touches(ev, s[s.len() - 1].root));
        lemma_untouched_classifies_to_nothing(ev, s.last().id, s.last().root);
        assert forall|i: int| #![trigger dl[i]] 0 <= i < dl.len() implies !touches(
            ev,
            dl[i].root,
        ) by {
            assert(dl[i] == s[i]);
        }
        lemma_untouched_event_silent(dl, ev);
        assert(dispatch(s, ev) =~= Seq::<SemanticEventModel>::empty());
    }
}

/// Law: a semantic event for a watch is emitted exactly when one of the raw
/// event's paths lies under that watch's root. Every emitted event is tagged
/// with the id of a watch whose root the raw event touches, and every watch
/// whose root is touched gets an event tagged with its id.
pub proof fn lemma_dispatch_exactly_touched(s: Seq<WatchModel>, ev: RawEvent)
    ensures
        forall|k: int|
            #![trigger dispatch(s, ev)[k]]
            0 <= k < dispatch(s, ev).len() ==> exists|i: int|
                0 <= i < s.len() && touches(ev, s[i].root) && event_watch_id(dispatch(s, ev)[k])
                    == s[i].id,
        forall|i: int|
            #![trigger s[i]]
            0 <= i < s.len() && touches(ev, s[i].root) ==> exists|k: int|
                0 <= k < dispatch(s, ev).len() && event_watch_id(dispatch(s, ev)[k]) == s[i].id,
    decreases s.len(),
{
    if s.len() > 0 {
        let dl = s.drop_last();
        let last = s.last();
        let pre = dispatch(dl, ev);
        let tail = classify(ev, last.id, last.root);
        let d = dispatch(s, ev);
        assert(d == pre + tail);
        lemma_dispatch_exactly_touched(dl, ev);
        lemma_classify_tagged(ev, last.id, last.root);
        lemma_classify_nonempty_iff_touches(ev, last.id, last.root);
        assert forall|k: int| #![trigger d[k]] 0 <= k < d.len() implies exists|i: int|
            #![trigger s[i]]
            0 <= i < s.len() && touches(ev, s[i].root) && event_watch_id(d[k]) == s[i].id by {
            if k < pre.len() {
                assert(d[k] == pre[k]);
                let i = choose|i: int|
                    0 <= i < dl.len() && touches(ev, dl[i].root) && event_watch_id(pre[k])
                        == dl[i].id;
                assert(s[i] == dl[i]);
                assert(0 <= i < s.len() && touches(ev, s[i].root) && event_watch_id(d[k])
                    == s[i].id);
            } else {
                assert(d[k] == tail[k - pre.len()]);
                assert(event_watch_id(d[k]) == last.id);
                assert(tail.len() > 0);
                let i = s.len() - 1;
                assert(s[i] == last);
                assert(0 <= i < s.len() && touches(ev, s[i].root) && event_watch_id(d[k])
                    == s[i].id);
            }
        }
        assert forall|i: int| #![trigger s[i]] 0 <= i < s.len() && touches(ev, s[i].root) implies
            exists|k: int|
                #![trigger d[k]]
                0 <= k < d.len() && event_watch_id(d[k]) == s[i].id by {
            if i < dl.len() {
                assert(dl[i] == s[i]);
                let k = choose|k: int|
                    0 <= k < pre.len() && event_watch_id(pre[k]) == dl[i].id;
                assert(d[k] == pre[k]);
                assert(0 <= k < d.len() && event_watch_id(d[k]) == s[i].id);
            } else {
                assert(s[i] == last);
                assert(tail.len() > 0);
                let k = pre.len() as int;
                assert(d[k] == tail[0]);
                assert(0 <= k < d.len() && event_watch_id(d[k]) == s[i].id);
            }
        }
    }
}

/// Law: one creation under two overlapping watch roots is presented to each
/// watch separately: dispatch emits exactly one created event per watch, in
/// registry order, each tagged with its own watch id.
pub proof fn lemma_overlapping_watches_each_see_create(
    w1: WatchModel,
    w2: WatchModel,
    path: Vec<u8>,
)
    requires
        is_under(w1.root, path@),
        is_under(w2.root, path@),
    ensures
        dispatch(seq![w1, w2], (RawEvent::Create { path })) == seq![
            (SemanticEventModel::Created { watch_id: w1.id, path: path@ }),
            (SemanticEventModel::Created { watch_id: w2.id, path: path@ }),
        ],
{
    let ev = RawEvent::Create { path };
    let s = seq![w1, w2];
    assert(s.drop_last() =~= seq![w1]);
    assert(seq![w1].drop_last() =~= Seq::<WatchModel>::empty());
    let d0 = dispatch(Seq::<WatchModel>::empty(), ev);
    assert(d0 =~= Seq::<SemanticEventModel>::empty());
    let d1 = dispatch(seq![w1], ev);
    assert(seq![w1].last() == w1);
    assert(d1 == d0 + classify(ev, w1.id, w1.root));
    assert(classify(ev, w1.id, w1.root) == seq![
        (SemanticEventModel::Created { watch_id: w1.id, path: path@ }),
    ]);
    assert(s.last() == w2);
    assert(dispatch(s, ev) == d1 + classify(ev, w2.id, w2.root));
    assert(classify(ev, w2.id, w2.root) == seq![
        (SemanticEventModel::Created { watch_id: w2.id, path: path@ }),
    ]);
    assert(dispatch(s, ev) =~= seq![
        (SemanticEventModel::Created { watch_id: w1.id, path: path@ }),
        (SemanticEventModel::Created { watch_id: w2.id, path: path@ }),
    ]);
}

} // verus!
