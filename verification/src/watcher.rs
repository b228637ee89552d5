//! File events of a workspace: which changes matter, and how bursts of them
//! are held back until the workspace is quiet.

use vstd::prelude::*;
use vstd::string::*;
use crate::file_manager::{extension_of, path_extension};

verus! {

/// A change to a watched file.
#[derive(Debug, Clone)]
pub enum FileEvent {
    Created(String),
    Modified(String),
    Deleted(String),
    Renamed(String, String),
}

/// The kind of a change reported by the file-system watcher.
#[derive(Debug, Clone, Copy, PartialEq, Eq, Structural)]
pub enum WatchEventKind {
    Any,
    Access,
    Create,
    Modify,
    Remove,
    Other,
}

/// A path is watched when its extension is `md` or `txt`.
pub open spec fn is_watched(path: Seq<char>) -> bool {
    path_extension(path) == Some("md"@) || path_extension(path) == Some("txt"@)
}

/// The watched paths of a list, in order.
pub open spec fn watched_paths(paths: Seq<Seq<char>>) -> Seq<Seq<char>>
    decreases paths.len(),
{
    if paths.len() == 0 {
        paths
    } else if is_watched(paths.last()) {
        watched_paths(paths.drop_last()).push(paths.last())
    } else {
        watched_paths(paths.drop_last())
    }
}

/// The watched paths of a list are exactly its Markdown and plain-text
/// paths, in their order.
pub proof fn lemma_watched_paths_is_filter(paths: Seq<Seq<char>>)
    ensures
        watched_paths(paths) == paths.filter(|p: Seq<char>|
            path_extension(p) == Some("md"@) || path_extension(p) == Some("txt"@)),
    decreases paths.len(),
{
    reveal(Seq::filter);
    if paths.len() > 0 {
        lemma_watched_paths_is_filter(paths.drop_last());
    }
}

/// A file event with its paths as text.
pub enum FileEventView {
    Created(Seq<char>),
    Modified(Seq<char>),
    Deleted(Seq<char>),
    Renamed(Seq<char>, Seq<char>),
}

/// An event with its paths as text.
pub open spec fn event_view(e: FileEvent) -> FileEventView {
    match e {
        FileEvent::Created(p) => FileEventView::Created(p@),
        FileEvent::Modified(p) => FileEventView::Modified(p@),
        FileEvent::Deleted(p) => FileEventView::Deleted(p@),
        FileEvent::Renamed(a, b) => FileEventView::Renamed(a@, b@),
    }
}

/// The events as values.
pub open spec fn events_view(es: Seq<FileEvent>) -> Seq<FileEventView> {
    es.map_values(|e: FileEvent| event_view(e))
}

/// The event for a reported change of the given kind to a path: creations,
/// modifications (and changes of unknown kind, which count as
/// modifications) and removals.
pub open spec fn event_for(kind: WatchEventKind, path: Seq<char>) -> FileEventView {
    match kind {
        WatchEventKind::Create => FileEventView::Created(path),
        WatchEventKind::Remove => FileEventView::Deleted(path),
        _ => FileEventView::Modified(path),
    }
}

/// The events reported for a change of kind `kind` to `paths`: one per
/// watched path, in order; none for access and other changes.
pub open spec fn converted_events(kind: WatchEventKind, paths: Seq<Seq<char>>) -> Seq<FileEventView> {
    match kind {
        WatchEventKind::Access | WatchEventKind::Other => Seq::empty(),
        _ => watched_paths(paths).map_values(|p: Seq<char>| event_for(kind, p)),
    }
}

/// The texts of a list of paths.
pub open spec fn paths_view(ps: Seq<String>) -> Seq<Seq<char>> {
    ps.map_values(|p: String| p@)
}

/// Whether the path names a Markdown or plain-text file.
fn watched(path: &String) -> (b: bool)
    ensures
        b == is_watched(path@),
{
    match extension_of(path.as_str()) {
        Some(e) => e == String::from_str("md") || e == String::from_str("txt"),
        None => false,
    }
}

/// The events to report for a change of kind `kind` to `paths`.
pub fn convert_event(kind: WatchEventKind, paths: Vec<String>) -> (events: Vec<FileEvent>)
    ensures
        events_view(events@) == converted_events(kind, paths_view(paths@)),
{
    let mut results: Vec<FileEvent> = Vec::new();
    if kind == WatchEventKind::Access || kind == WatchEventKind::Other {
        assert(events_view(results@) =~= Seq::<FileEventView>::empty());
        return results;
    }
    let ghost pv = paths_view(paths@);
    for p in it: paths
        invariant
            it.seq() == paths@,
            pv == paths_view(paths@),
            kind != WatchEventKind::Access && kind != WatchEventKind::Other,
            events_view(results@) == watched_paths(pv.take(it.index() as int)).map_values(
                |q: Seq<char>| event_for(kind, q),
            ),
    {
        let ghost idx = it.index();
        let ghost before = pv.take(idx as int);
        assert(pv.take(idx as int + 1).drop_last() =~= before);
        assert(pv.take(idx as int + 1).last() == p@);
        if watched(&p) {
            let ghost prev = results@;
            let e = match kind {
                WatchEventKind::Create => FileEvent::Created(p),
                WatchEventKind::Remove => FileEvent::Deleted(p),
                _ => FileEvent::Modified(p),
            };
            results.push(e);
            assert(events_view(results@) =~= events_view(prev).push(event_view(e)));
            assert(watched_paths(pv.take(idx as int + 1)) == watched_paths(before).push(pv[idx as int]));
            assert(watched_paths(pv.take(idx as int + 1)).map_values(|q: Seq<char>| event_for(kind, q))
                =~= watched_paths(before).map_values(|q: Seq<char>| event_for(kind, q)).push(
                event_for(kind, pv[idx as int])));
        }
    }
    assert(pv.take(pv.len() as int) =~= pv);
    results
}

/// The time passed from `since` to `now`, zero if `now` is earlier.
pub open spec fn elapsed(since: u64, now: u64) -> u64 {
    if now >= since {
        (now - since) as u64
    } else {
        0
    }
}

/// The state of a debounce queue: the events held, in arrival order, and
/// the time of the latest event.
pub struct DebounceView {
    pub pending: Seq<FileEvent>,
    pub last_event_time: u64,
}

/// A tick releases the held events when there is one and no event has come
/// for at least `quiet`.
pub open spec fn quiet_enough(v: DebounceView, now: u64, quiet: u64) -> bool {
    v.pending.len() > 0 && elapsed(v.last_event_time, now) >= quiet
}

/// The state after an event received at time `now`.
pub open spec fn after_event(v: DebounceView, e: FileEvent, now: u64) -> DebounceView {
    DebounceView { pending: v.pending.push(e), last_event_time: now }
}

/// The state after a tick at time `now`, and the events it releases.
pub open spec fn after_tick(v: DebounceView, now: u64, quiet: u64) -> (DebounceView, Seq<FileEvent>) {
    if quiet_enough(v, now, quiet) {
        (DebounceView { pending: Seq::empty(), ..v }, v.pending)
    } else {
        (v, Seq::empty())
    }
}

/// One step of a debounce queue's life: an event received at a time, or a
/// tick at a time with a quiet period.
pub enum DebounceStep {
    Event(FileEvent, u64),
    Tick(u64, u64),
}

/// The state after a sequence of steps, and every event released on the
/// way, in the order released.
pub open spec fn run_steps(v: DebounceView, steps: Seq<DebounceStep>) -> (DebounceView, Seq<FileEvent>)
    decreases steps.len(),
{
    if steps.len() == 0 {
        (v, Seq::empty())
    } else {
        let (w, released) = run_steps(v, steps.drop_last());
        match steps.last() {
            DebounceStep::Event(e, t) => (after_event(w, e, t), released),
            DebounceStep::Tick(now, quiet) => {
                let (w2, r) = after_tick(w, now, quiet);
                (w2, released + r)
            },
        }
    }
}

/// The events received in a sequence of steps, in order.
pub open spec fn arrivals(steps: Seq<DebounceStep>) -> Seq<FileEvent>
    decreases steps.len(),
{
    if steps.len() == 0 {
        Seq::empty()
    } else {
        match steps.last() {
            DebounceStep::Event(e, _) => arrivals(steps.drop_last()).push(e),
            DebounceStep::Tick(_, _) => arrivals(steps.drop_last()),
        }
    }
}

/// Events held back until the workspace has been quiet for a while.
///
/// Times are in a monotonic unit chosen by the caller (the same unit for
/// event times, tick times and the quiet period).
pub struct DebounceQueue {
    pending: Vec<FileEvent>,
    last_event_time: u64,
}

impl View for DebounceQueue {
    type V = DebounceView;

    closed spec fn view(&self) -> DebounceView {
        DebounceView { pending: self.pending@, last_event_time: self.last_event_time }
    }
}

impl DebounceQueue {
    /// The events received and not yet released, in arrival order.
    pub open spec fn pending(&self) -> Seq<FileEvent> {
        self@.pending
    }

    /// The time of the latest event received.
    pub open spec fn last_event_time(&self) -> u64 {
        self@.last_event_time
    }

    /// An empty queue, started at time `now`.
    pub fn new(now: u64) -> (q: DebounceQueue)
        ensures
            q.pending() == Seq::<FileEvent>::empty(),
            q.last_event_time() == now,
    {
        DebounceQueue { pending: Vec::new(), last_event_time: now }
    }

    /// Holds back an event received at time `now`.
    pub fn on_event(&mut self, event: FileEvent, now: u64)
        ensures
            final(self)@ == after_event(old(self)@, event, now),
            final(self).pending() == old(self).pending().push(event),
            final(self).last_event_time() == now,
    {
        self.pending.push(event);
        self.last_event_time = now;
    }

    /// At time `now`, releases every held event, in arrival order, when there
    /// is one and no event has come for at least `quiet`; otherwise releases
    /// nothing. No event is lost or reordered: what is released followed by
    /// what is still held is what was held before.
    pub fn on_tick(&mut self, now: u64, quiet: u64) -> (released: Vec<FileEvent>)
        ensures
            (final(self)@, released@) == after_tick(old(self)@, now, quiet),
            final(self).last_event_time() == old(self).last_event_time(),
            released@ + final(self).pending() == old(self).pending(),
            (old(self).pending().len() > 0 && elapsed(old(self).last_event_time(), now) >= quiet)
                ==> released@ == old(self).pending(),
            !(old(self).pending().len() > 0 && elapsed(old(self).last_event_time(), now) >= quiet)
                ==> released@.len() == 0,
    {
        let waited = if now >= self.last_event_time { now - self.last_event_time } else { 0 };
        if self.pending.len() > 0 && waited >= quiet {
            let mut released: Vec<FileEvent> = Vec::new();
            std::mem::swap(&mut released, &mut self.pending);
            assert(self.pending@ =~= Seq::<FileEvent>::empty());
            assert(released@ + self.pending@ =~= released@);
            released
        } else {
            let released: Vec<FileEvent> = Vec::new();
            assert(released@ =~= Seq::<FileEvent>::empty());
            assert(released@ + self.pending@ =~= self.pending@);
            released
        }
    }
}

/// Over any sequence of events and ticks, every event is released at most
/// once and in arrival order: what was released, followed by what is still
/// held, is what was held at the start followed by what arrived. A tick
/// releases something only when no event has come for the quiet period, and
/// the held events are then all released.
pub proof fn lemma_debounce_delivers_in_order(v: DebounceView, steps: Seq<DebounceStep>)
    ensures
        run_steps(v, steps).1 + run_steps(v, steps).0.pending == v.pending + arrivals(steps),
        steps.len() > 0 ==> (steps.last() matches DebounceStep::Tick(now, quiet) ==> {
            let w = run_steps(v, steps.drop_last()).0;
            &&& quiet_enough(w, now, quiet) ==> run_steps(v, steps).0.pending.len() == 0
                && run_steps(v, steps).1 == v.pending + arrivals(steps)
            &&& !quiet_enough(w, now, quiet) ==> run_steps(v, steps).1 == run_steps(v, steps.drop_last()).1
        }),
    decreases steps.len(),
{
    if steps.len() > 0 {
        let p = steps.drop_last();
        lemma_debounce_delivers_in_order(v, p);
        let (w, released) = run_steps(v, p);
        match steps.last() {
            DebounceStep::Event(e, t) => {
                assert(released + w.pending.push(e) =~= (released + w.pending).push(e));
                assert(v.pending + arrivals(p).push(e) =~= (v.pending + arrivals(p)).push(e));
            },
            DebounceStep::Tick(now, quiet) => {
                if quiet_enough(w, now, quiet) {
                    assert(released + w.pending + Seq::<FileEvent>::empty() =~= released + w.pending);
                } else {
                    assert(released + Seq::<FileEvent>::empty() =~= released);
                }
            },
        }
    }
}

/// A tick that releases events comes at least the quiet period after the
/// latest event.
pub proof fn lemma_release_only_after_quiet(v: DebounceView, now: u64, quiet: u64)
    ensures
        after_tick(v, now, quiet).1.len() > 0 ==> elapsed(v.last_event_time, now) >= quiet,
        after_tick(v, now, quiet).0.last_event_time == v.last_event_time,
{
}

/// Only watched paths are kept, in their order.
proof fn lemma_watched_paths_are_watched(paths: Seq<Seq<char>>)
    ensures
        forall|i: int| 0 <= i < watched_paths(paths).len() ==> is_watched(#[trigger] watched_paths(paths)[i]),
        watched_paths(paths).len() <= paths.len(),
    decreases paths.len(),
{
    if paths.len() > 0 {
        lemma_watched_paths_are_watched(paths.drop_last());
    }
}

/// Every reported event is about a Markdown or plain-text file, and a
/// change is reported as a creation, a modification or a removal.
pub proof fn lemma_converted_events_are_watched(kind: WatchEventKind, paths: Seq<Seq<char>>)
    ensures
        forall|i: int| 0 <= i < converted_events(kind, paths).len() ==> {
            let e = #[trigger] converted_events(kind, paths)[i];
            ||| e matches FileEventView::Created(p) && is_watched(p)
            ||| e matches FileEventView::Modified(p) && is_watched(p)
            ||| e matches FileEventView::Deleted(p) && is_watched(p)
        },
{
    lemma_watched_paths_are_watched(paths);
}

} // verus!
