//! Turning filesystem events into table mutations and change signals.
//!
//! The watcher's outside half (subscribing to OS notifications, querying
//! the filesystem) resolves each event into plain facts: the event kind,
//! whether the path is currently a regular file, its parent directory, and
//! its byte size. This module holds the verified half: which events count
//! as a file creation, and how one event mutates the table and the signal
//! queue.

use vstd::prelude::*;

use crate::channel::SignalQueue;
use crate::stats::record_creation;
use crate::stats::StatsTable;

verus! {

/// The kind of one filesystem change notification.
#[derive(Clone, Copy, PartialEq, Eq, Structural, Debug)]
pub enum FsEventKind {
    Create,
    Modify,
    Delete,
    Rename,
    Other,
}

/// The facts about an event's path at resolution time: whether it is
/// currently a regular file, its parent directory (a filesystem root has
/// none), and its byte size (the metadata query fails when the file
/// vanished between the event and the read).
pub struct PathFacts {
    pub is_regular_file: bool,
    pub parent: Option<String>,
    pub size: Option<u64>,
}

/// One filesystem event after its path has been resolved; `path` is absent
/// when the event carried no path at all.
pub struct ObservedEvent {
    pub kind: FsEventKind,
    pub path: Option<PathFacts>,
}

/// The folder key and byte size an event contributes, if any: only a
/// creation event with a path that is a regular file, has a parent and
/// answered the size query counts.
pub open spec fn creation_effect(e: ObservedEvent) -> Option<(Seq<char>, u64)> {
    match e.path {
        Some(p) => {
            if e.kind is Create && p.is_regular_file && p.parent is Some && p.size is Some {
                Some((p.parent->0@, p.size->0))
            } else {
                None
            }
        },
        None => None,
    }
}

/// Extract the folder key and byte size from an event, exactly when
/// `creation_effect` says the event counts as a file creation.
pub fn creation_update(e: ObservedEvent) -> (r: Option<(String, u64)>)
    ensures
        r is Some <==> creation_effect(e) is Some,
        r is Some ==> (r->0).0@ == (creation_effect(e)->0).0 && (r->0).1 == (creation_effect(
            e,
        )->0).1,
{
    match e.path {
        Some(p) => {
            if matches!(e.kind, FsEventKind::Create) && p.is_regular_file {
                match (p.parent, p.size) {
                    (Some(parent), Some(size)) => Some((parent, size)),
                    _ => None,
                }
            } else {
                None
            }
        },
        None => None,
    }
}

/// Process one resolved event: a creation mutates the table first and then
/// offers one change signal; every other event leaves both untouched. The
/// result says whether a signal was queued — a full queue only delays the
/// signal, never the table mutation.
pub fn handle_event(table: &mut StatsTable, queue: &mut SignalQueue, e: ObservedEvent) -> (signaled:
    bool)
    requires
        old(table).wf(),
        old(queue).wf(),
        creation_effect(e) matches Some(eff) ==> (old(table)@.dom().contains(eff.0)
            ==> old(table)@[eff.0].size + eff.1 <= u64::MAX
                && old(table)@[eff.0].file_count + 1 <= u64::MAX),
    ensures
        final(table).wf(),
        final(queue).wf(),
        final(queue).cap() == old(queue).cap(),
        creation_effect(e) matches Some(eff) ==> final(table)@ == record_creation(
            old(table)@,
            eff.0,
            eff.1,
        ),
        creation_effect(e) is None ==> final(table)@ == old(table)@
            && final(queue).pending_count() == old(queue).pending_count(),
        signaled ==> creation_effect(e) is Some
            && final(queue).pending_count() == old(queue).pending_count() + 1,
        creation_effect(e) is Some && !signaled ==> old(queue).pending_count()
            == old(queue).cap() && final(queue).pending_count() == old(queue).pending_count(),
{
    match creation_update(e) {
        Some((folder, size)) => {
            table.apply_creation(folder, size);
            queue.try_send()
        },
        None => false,
    }
}

} // verus!
