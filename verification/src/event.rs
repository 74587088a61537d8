//! Raw filesystem notifications and the watch-scoped semantic events they are
//! reclassified into. The classifier is pure: for one watch it turns a raw
//! event into zero or one semantic events, rewriting a rename that crosses
//! the watch-root boundary into the creation or deletion that the watch can
//! actually observe in its own subtree.

use vstd::prelude::*;
use crate::path::{is_under, path_is_under};

verus! {

/// A low-level, already-debounced notification from the operating system's
/// event source. The notice, attribute-change, rescan and error variants are
/// informational only and never produce a semantic event.
#[derive(Debug)]
pub enum RawEvent {
    Create { path: Vec<u8> },
    Write { path: Vec<u8> },
    Remove { path: Vec<u8> },
    Rename { old_path: Vec<u8>, new_path: Vec<u8> },
    NoticeWrite { path: Vec<u8> },
    NoticeRemove { path: Vec<u8> },
    Chmod { path: Vec<u8> },
    Rescan,
    Error,
}

/// A watch-scoped event, the only shape that leaves the core. It carries the
/// id of the watch it belongs to and the canonical path(s) involved.
#[derive(Debug, PartialEq, Eq)]
pub enum SemanticEvent {
    Modified { watch_id: usize, path: Vec<u8> },
    Created { watch_id: usize, path: Vec<u8> },
    Deleted { watch_id: usize, path: Vec<u8> },
    Renamed { watch_id: usize, path: Vec<u8>, old_path: Vec<u8> },
}

/// Mathematical model of a semantic event: the same shape over `Seq<u8>`.
pub enum SemanticEventModel {
    Modified { watch_id: usize, path: Seq<u8> },
    Created { watch_id: usize, path: Seq<u8> },
    Deleted { watch_id: usize, path: Seq<u8> },
    Renamed { watch_id: usize, path: Seq<u8>, old_path: Seq<u8> },
}

impl View for SemanticEvent {
    type V = SemanticEventModel;

    open spec fn view(&self) -> SemanticEventModel {
        match self {
            SemanticEvent::Modified { watch_id, path } => (SemanticEventModel::Modified {
                watch_id: *watch_id,
                path: path@,
            }),
            SemanticEvent::Created { watch_id, path } => (SemanticEventModel::Created {
                watch_id: *watch_id,
                path: path@,
            }),
            SemanticEvent::Deleted { watch_id, path } => (SemanticEventModel::Deleted {
                watch_id: *watch_id,
                path: path@,
            }),
            SemanticEvent::Renamed { watch_id, path, old_path } => (SemanticEventModel::Renamed {
                watch_id: *watch_id,
                path: path@,
                old_path: old_path@,
            }),
        }
    }
}

/// The models of a sequence of semantic events.
pub open spec fn views_of(s: Seq<SemanticEvent>) -> Seq<SemanticEventModel> {
    s.map_values(|e: SemanticEvent| e@)
}

/// Whether any path carried by `ev` lies under `root`; informational events
/// touch nothing.
pub open spec fn touches(ev: RawEvent, root: Seq<u8>) -> bool {
    match ev {
        RawEvent::Create { path } => is_under(root, path@),
        RawEvent::Write { path } => is_under(root, path@),
        RawEvent::Remove { path } => is_under(root, path@),
        RawEvent::Rename { old_path, new_path } => is_under(root, old_path@) || is_under(
            root,
            new_path@,
        ),
        _ => false,
    }
}

/// What one watch observes of one raw event. A create, write or remove under
/// the root becomes the corresponding semantic event; a rename is split on
/// which side of the root boundary each of its two paths falls: inside to
/// inside is a rename, inside to outside a deletion, outside to inside a
/// creation, and outside to outside nothing. Informational events yield
/// nothing.
pub open spec fn classify(ev: RawEvent, watch_id: usize, root: Seq<u8>) -> Seq<SemanticEventModel> {
    match ev {
        RawEvent::Create { path } => if is_under(root, path@) {
            seq![(SemanticEventModel::Created { watch_id, path: path@ })]
        } else {
            Seq::empty()
        },
        RawEvent::Write { path } => if is_under(root, path@) {
            seq![(SemanticEventModel::Modified { watch_id, path: path@ })]
        } else {
            Seq::empty()
        },
        RawEvent::Remove { path } => if is_under(root, path@) {
            seq![(SemanticEventModel::Deleted { watch_id, path: path@ })]
        } else {
            Seq::empty()
        },
        RawEvent::Rename { old_path, new_path } => if is_under(root, old_path@) && is_under(
            root,
            new_path@,
        ) {
            seq![
                (SemanticEventModel::Renamed {
                    watch_id,
                    path: new_path@,
                    old_path: old_path@,
                }),
            ]
        } else if is_under(root, old_path@) {
            seq![(SemanticEventModel::Deleted { watch_id, path: old_path@ })]
        } else if is_under(root, new_path@) {
            seq![(SemanticEventModel::Created { watch_id, path: new_path@ })]
        } else {
            Seq::empty()
        },
        _ => Seq::empty(),
    }
}

/// A raw event that touches nothing under `root` classifies to no events.
pub proof fn lemma_untouched_classifies_to_nothing(ev: RawEvent, watch_id: usize, root: Seq<u8>)
    requires
        !touches(ev, root),
    ensures
        classify(ev, watch_id, root) == Seq::<SemanticEventModel>::empty(),
{
}

/// The watch id a semantic event is tagged with.
pub open spec fn event_watch_id(e: SemanticEventModel) -> usize {
    match e {
        SemanticEventModel::Modified { watch_id, .. } => watch_id,
        SemanticEventModel::Created { watch_id, .. } => watch_id,
        SemanticEventModel::Deleted { watch_id, .. } => watch_id,
        SemanticEventModel::Renamed { watch_id, .. } => watch_id,
    }
}

/// Every event a watch's classification emits is tagged with that watch's id.
pub proof fn lemma_classify_tagged(ev: RawEvent, watch_id: usize, root: Seq<u8>)
    ensures
        forall|k: int| 0 <= k < classify(ev, watch_id, root).len() ==> event_watch_id(
            #[trigger] classify(ev, watch_id, root)[k],
        ) == watch_id,
{
}

/// A watch's classification emits an event exactly when the raw event
/// touches the watch's root.
pub proof fn lemma_classify_nonempty_iff_touches(ev: RawEvent, watch_id: usize, root: Seq<u8>)
    ensures
        classify(ev, watch_id, root).len() > 0 <==> touches(ev, root),
{
}

/// Copies a byte vector.
fn clone_bytes(v: &Vec<u8>) -> (r: Vec<u8>)
    ensures
        r@ == v@,
{
    let mut r: Vec<u8> = Vec::new();
    let mut i: usize = 0;
    while i < v.len()
        invariant
            i <= v@.len(),
            r@ == v@.subrange(0, i as int),
        decreases v@.len() - i,
    {
        r.push(v[i]);
        proof {
            assert(r@ =~= v@.subrange(0, i + 1));
        }
        i += 1;
    }
    proof {
        assert(r@ =~= v@);
    }
    r
}

/// Executable classifier matching `classify` for the watch with the given id
/// and root.
pub fn classify_event(watch_id: usize, root: &Vec<u8>, ev: &RawEvent) -> (out: Vec<SemanticEvent>)
    ensures
        views_of(out@) == classify(*ev, watch_id, root@),
{
    let mut out: Vec<SemanticEvent> = Vec::new();
    match ev {
        RawEvent::Create { path } => {
            if path_is_under(root, path) {
                out.push(SemanticEvent::Created { watch_id, path: clone_bytes(path) });
            }
        },
        RawEvent::Write { path } => {
            if path_is_under(root, path) {
                out.push(SemanticEvent::Modified { watch_id, path: clone_bytes(path) });
            }
        },
        RawEvent::Remove { path } => {
            if path_is_under(root, path) {
                out.push(SemanticEvent::Deleted { watch_id, path: clone_bytes(path) });
            }
        },
        RawEvent::Rename { old_path, new_path } => {
            let under_old = path_is_under(root, old_path);
            let under_new = path_is_under(root, new_path);
            if under_old && under_new {
                out.push(
                    SemanticEvent::Renamed {
                        watch_id,
                        path: clone_bytes(new_path),
                        old_path: clone_bytes(old_path),
                    },
                );
            } else if under_old {
                out.push(SemanticEvent::Deleted { watch_id, path: clone_bytes(old_path) });
            } else if under_new {
                out.push(SemanticEvent::Created { watch_id, path: clone_bytes(new_path) });
            }
        },
        RawEvent::NoticeWrite { path: _ } => {},
        RawEvent::NoticeRemove { path: _ } => {},
        RawEvent::Chmod { path: _ } => {},
        RawEvent::Rescan => {},
        RawEvent::Error => {},
    }
    proof {
        assert(views_of(out@) =~= classify(*ev, watch_id, root@));
    }
    out
}

} // verus!
