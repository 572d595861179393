//! The watch/dispatch engine, modelled as an explicit state machine.
//!
//! The engine subscribes to filesystem notifications under a root directory,
//! coalesces bursts of events, and for each resulting path runs a dispatch
//! pass over the modules.  The decisions — which events count, what state
//! follows which input, which paths of a burst are kept — are plain functions
//! verified here; the surrounding binary owns the subscription, the channel
//! and the processes, performs each action the engine asks for, and hands
//! the next event back.

use vstd::prelude::*;

verus! {

/// The kind of a debounced filesystem notification.
#[derive(Debug, Clone, Copy, PartialEq, Eq, Structural)]
pub enum EventKind {
    Write,
    NoticeWrite,
    NoticeRemove,
    Create,
    Chmod,
    Remove,
    Rename,
    Rescan,
    Other,
}

/// The kinds that trigger a dispatch pass: writes, notices of a write, and
/// creations.  Everything else — removals and their notices, renames,
/// attribute changes — is observed but dispatches nothing.
pub open spec fn is_dispatch_kind(k: EventKind) -> bool {
    k == EventKind::Write || k == EventKind::NoticeWrite || k == EventKind::Create
}

/// Whether an event kind triggers a dispatch pass.
pub fn dispatch_kind(k: EventKind) -> (r: bool)
    ensures
        r == is_dispatch_kind(k),
{
    match k {
        EventKind::Write => true,
        EventKind::NoticeWrite => true,
        EventKind::Create => true,
        _ => false,
    }
}

/// The state of a watch session: not yet subscribed, subscribed and serving
/// events, or one of the two terminal states.
#[derive(Debug, Clone, Copy, PartialEq, Eq, Structural)]
pub enum EngineState {
    Idle,
    Watching,
    Stopped,
    Failed,
}

/// The mathematical shape of an [`EngineEvent`].
pub enum EngineEventView {
    Subscribed,
    SubscribeFailed,
    Fs(EventKind, Seq<char>),
    Closed,
}

/// An input to the engine: the subscription attempt resolved, a debounced
/// filesystem event arrived for a path, or the notification channel closed.
#[derive(Debug)]
pub enum EngineEvent {
    Subscribed,
    SubscribeFailed,
    Fs(EventKind, String),
    Closed,
}

impl View for EngineEvent {
    type V = EngineEventView;

    open spec fn view(&self) -> EngineEventView {
        match self {
            EngineEvent::Subscribed => EngineEventView::Subscribed,
            EngineEvent::SubscribeFailed => EngineEventView::SubscribeFailed,
            EngineEvent::Fs(k, p) => EngineEventView::Fs(*k, p@),
            EngineEvent::Closed => EngineEventView::Closed,
        }
    }
}

/// The mathematical shape of an [`EngineAction`].
pub enum EngineActionView {
    Ignore,
    Dispatch(Seq<char>),
    Halt,
}

/// What the engine asks its caller to do after a step: nothing, run one
/// dispatch pass for a path, or leave the watch loop.
#[derive(Debug)]
pub enum EngineAction {
    Ignore,
    Dispatch(String),
    Halt,
}

impl View for EngineAction {
    type V = EngineActionView;

    open spec fn view(&self) -> EngineActionView {
        match self {
            EngineAction::Ignore => EngineActionView::Ignore,
            EngineAction::Dispatch(p) => EngineActionView::Dispatch(p@),
            EngineAction::Halt => EngineActionView::Halt,
        }
    }
}

/// The transition table of the watch session.  From idle, the subscription
/// outcome leads to watching or to the terminal failure.  While watching, a
/// dispatching event asks for one dispatch pass and the session stays
/// watching; any other event is observed and ignored; a closed channel ends
/// the session cleanly.  The terminal states absorb every input.
pub open spec fn engine_step(s: EngineState, e: EngineEventView) -> (EngineState, EngineActionView) {
    match s {
        EngineState::Idle => match e {
            EngineEventView::Subscribed => (EngineState::Watching, EngineActionView::Ignore),
            EngineEventView::SubscribeFailed => (EngineState::Failed, EngineActionView::Ignore),
            _ => (EngineState::Idle, EngineActionView::Ignore),
        },
        EngineState::Watching => match e {
            EngineEventView::Fs(k, p) => if is_dispatch_kind(k) {
                (EngineState::Watching, EngineActionView::Dispatch(p))
            } else {
                (EngineState::Watching, EngineActionView::Ignore)
            },
            EngineEventView::Closed => (EngineState::Stopped, EngineActionView::Halt),
            _ => (EngineState::Watching, EngineActionView::Ignore),
        },
        EngineState::Stopped => (EngineState::Stopped, EngineActionView::Ignore),
        EngineState::Failed => (EngineState::Failed, EngineActionView::Ignore),
    }
}

/// Advance the watch session by one input, handing back the next state and
/// the action the caller must perform.
pub fn step(s: EngineState, e: EngineEvent) -> (r: (EngineState, EngineAction))
    ensures
        (r.0, r.1@) == engine_step(s, e@),
{
    match s {
        EngineState::Idle => match e {
            EngineEvent::Subscribed => (EngineState::Watching, EngineAction::Ignore),
            EngineEvent::SubscribeFailed => (EngineState::Failed, EngineAction::Ignore),
            _ => (EngineState::Idle, EngineAction::Ignore),
        },
        EngineState::Watching => match e {
            EngineEvent::Fs(k, p) => if dispatch_kind(k) {
                (EngineState::Watching, EngineAction::Dispatch(p))
            } else {
                (EngineState::Watching, EngineAction::Ignore)
            },
            EngineEvent::Closed => (EngineState::Stopped, EngineAction::Halt),
            _ => (EngineState::Watching, EngineAction::Ignore),
        },
        EngineState::Stopped => (EngineState::Stopped, EngineAction::Ignore),
        EngineState::Failed => (EngineState::Failed, EngineAction::Ignore),
    }
}

/// The distinct paths among the first `n` of a burst, each kept at its first
/// occurrence, in order.
pub open spec fn dedup_upto(paths: Seq<Seq<char>>, n: int) -> Seq<Seq<char>>
    decreases n,
{
    if n <= 0 {
        Seq::empty()
    } else {
        let d = dedup_upto(paths, n - 1);
        if d.contains(paths[n - 1]) {
            d
        } else {
            d.push(paths[n - 1])
        }
    }
}

/// The distinct paths of a burst, each kept at its first occurrence, in
/// order.
pub open spec fn dedup_paths(paths: Seq<Seq<char>>) -> Seq<Seq<char>> {
    dedup_upto(paths, paths.len() as int)
}

fn contains_string(v: &Vec<String>, s: &String) -> (r: bool)
    ensures
        r == v.deep_view().contains(s@),
{
    let mut j: usize = 0;
    while j < v.len()
        invariant
            0 <= j <= v.len(),
            forall|k: int| 0 <= k < j ==> v.deep_view()[k] != s@,
        decreases v.len() - j,
    {
        if v[j].eq(s) {
            proof {
                assert(v.deep_view()[j as int] == s@);
            }
            return true;
        }
        j = j + 1;
    }
    proof {
        assert(forall|k: int| 0 <= k < v.deep_view().len() ==> v.deep_view()[k] != s@);
    }
    false
}

/// Coalesce one debounced burst: of all the paths the window collected, keep
/// each distinct path once, at its first occurrence, so that a burst yields
/// one dispatch pass per distinct path rather than one per raw event.
pub fn coalesce_paths(paths: &Vec<String>) -> (r: Vec<String>)
    ensures
        r.deep_view() == dedup_paths(paths.deep_view()),
{
    let ghost pv = paths.deep_view();
    let mut out: Vec<String> = Vec::new();
    let mut i: usize = 0;
    proof {
        assert(out.deep_view() =~= dedup_upto(pv, 0));
    }
    while i < paths.len()
        invariant
            0 <= i <= paths.len(),
            pv == paths.deep_view(),
            pv.len() == paths.len(),
            out.deep_view() == dedup_upto(pv, i as int),
        decreases paths.len() - i,
    {
        let ghost old_out = out.deep_view();
        if !contains_string(&out, &paths[i]) {
            out.push(paths[i].clone());
            proof {
                assert(out.deep_view() =~= old_out.push(pv[i as int]));
            }
        }
        i = i + 1;
    }
    out
}

/// Coalescing loses no path and invents none: a path stands in the
/// coalesced burst exactly when some raw event of the burst carried it.
pub proof fn lemma_dedup_membership(paths: Seq<Seq<char>>, x: Seq<char>)
    ensures
        dedup_paths(paths).contains(x) == paths.contains(x),
{
    lemma_dedup_upto_membership(paths, x, paths.len() as int);
}

proof fn lemma_dedup_upto_membership(paths: Seq<Seq<char>>, x: Seq<char>, n: int)
    requires
        0 <= n <= paths.len(),
    ensures
        dedup_upto(paths, n).contains(x) == (exists|i: int| 0 <= i < n && paths[i] == x),
    decreases n,
{
    if n == 0 {
        assert(!dedup_upto(paths, 0).contains(x));
    } else {
        lemma_dedup_upto_membership(paths, x, n - 1);
        let d = dedup_upto(paths, n - 1);
        if d.contains(paths[n - 1]) {
            if paths[n - 1] == x {
                assert(dedup_upto(paths, n).contains(x));
            }
        } else {
            if d.push(paths[n - 1]).contains(x) {
                let e = d.push(paths[n - 1]);
                let w = choose|w: int| 0 <= w < e.len() && e[w] == x;
                if w < d.len() {
                    assert(d[w] == x);
                    assert(d.contains(x));
                } else {
                    assert(paths[n - 1] == x);
                }
            }
            if paths[n - 1] == x {
                assert(d.push(paths[n - 1])[d.len() as int] == x);
            } else if d.contains(x) {
                let w = choose|w: int| 0 <= w < d.len() && d[w] == x;
                assert(d.push(paths[n - 1])[w] == x);
            }
        }
    }
}

/// No path appears twice after coalescing: one dispatch pass per distinct
/// path, never more.
pub proof fn lemma_dedup_distinct(paths: Seq<Seq<char>>, i: int, j: int)
    requires
        0 <= i < j < dedup_paths(paths).len(),
    ensures
        dedup_paths(paths)[i] != dedup_paths(paths)[j],
{
    lemma_dedup_upto_distinct(paths, paths.len() as int);
}

proof fn lemma_dedup_upto_distinct(paths: Seq<Seq<char>>, n: int)
    requires
        0 <= n <= paths.len(),
    ensures
        forall|i: int, j: int|
            0 <= i < j < dedup_upto(paths, n).len() ==> dedup_upto(paths, n)[i] != dedup_upto(
                paths,
                n,
            )[j],
    decreases n,
{
    if n > 0 {
        lemma_dedup_upto_distinct(paths, n - 1);
        let d = dedup_upto(paths, n - 1);
        if !d.contains(paths[n - 1]) {
            let e = d.push(paths[n - 1]);
            assert forall|i: int, j: int| #![trigger e[i], e[j]]
                0 <= i < j < e.len() implies e[i] != e[j] by {
                if j == d.len() {
                    assert(e[i] == d[i]);
                    assert(!d.contains(paths[n - 1]));
                }
            }
        }
    }
}

/// Debouncing in one sentence: however many events a burst holds for one and
/// the same path, the coalesced burst asks for exactly one dispatch pass,
/// for exactly that path.
pub proof fn lemma_debounce_single_path(paths: Seq<Seq<char>>, p: Seq<char>)
    requires
        paths.len() > 0,
        forall|i: int| 0 <= i < paths.len() ==> paths[i] == p,
    ensures
        dedup_paths(paths) == seq![p],
{
    lemma_dedup_upto_same(paths, p, paths.len() as int);
}

proof fn lemma_dedup_upto_same(paths: Seq<Seq<char>>, p: Seq<char>, n: int)
    requires
        1 <= n <= paths.len(),
        forall|i: int| 0 <= i < paths.len() ==> paths[i] == p,
    ensures
        dedup_upto(paths, n) == seq![p],
    decreases n,
{
    if n == 1 {
        assert(dedup_upto(paths, 0) == Seq::<Seq<char>>::empty());
        assert(!Seq::<Seq<char>>::empty().contains(p));
        assert(dedup_upto(paths, 1) =~= seq![p]);
    } else {
        lemma_dedup_upto_same(paths, p, n - 1);
        assert(seq![p].contains(p)) by {
            assert(seq![p][0] == p);
        }
    }
}

} // verus!
