//! The order of a search: what is done next, given what the step before
//! found. The caller does what the action says and hands back the event.

use vstd::prelude::*;
use crate::known_buckets::{remote_targets, remote_targets_of, KnownBucket, KnownBucketView};
use crate::remote::RemoteResult;
use crate::scan::{BucketResult, BucketResultView};
use crate::search::{sort_buckets, sort_remote, sorted_by_name, RemoteResultView};

verus! {

/// Where a search stands.
#[derive(Debug, Clone, Copy, PartialEq, Eq, Structural)]
pub enum Phase {
    /// The installed buckets are being scanned.
    Local,
    /// The rate limit of the listing service is being asked for.
    RateLimit,
    /// The listings of the known buckets are being fetched.
    Remote,
    /// Nothing is left to do.
    Finished,
}

/// What a step of the search found.
#[derive(Debug)]
pub enum Event {
    /// The scans of the installed buckets that have a match, in any order.
    Scanned(Vec<BucketResult>),
    /// Whether the rate limit is reached.
    Limit(bool),
    /// The candidates of the known buckets that have one, in any order.
    Fetched(Vec<RemoteResult>),
}

/// What is done next.
#[derive(Debug)]
pub enum Action {
    /// Show the local results.
    Report(Vec<BucketResult>),
    /// Ask for the rate limit.
    AskLimit,
    /// Fetch the listings of these buckets.
    Fetch(Vec<KnownBucket>),
    /// Show the remote results.
    Suggest(Vec<RemoteResult>),
    /// Say that nothing was found.
    NothingFound,
    /// The event does not belong to the phase; nothing is done.
    Ignore,
}

pub enum EventView {
    Scanned(Seq<BucketResultView>),
    Limit(bool),
    Fetched(Seq<RemoteResultView>),
}

pub enum ActionView {
    Report(Seq<BucketResultView>),
    AskLimit,
    Fetch(Seq<KnownBucketView>),
    Suggest(Seq<RemoteResultView>),
    NothingFound,
    Ignore,
}

impl View for Event {
    type V = EventView;

    open spec fn view(&self) -> EventView {
        match self {
            Event::Scanned(results) => EventView::Scanned(results.deep_view()),
            Event::Limit(reached) => EventView::Limit(*reached),
            Event::Fetched(results) => EventView::Fetched(results.deep_view()),
        }
    }
}

impl View for Action {
    type V = ActionView;

    open spec fn view(&self) -> ActionView {
        match self {
            Action::Report(results) => ActionView::Report(results.deep_view()),
            Action::AskLimit => ActionView::AskLimit,
            Action::Fetch(targets) => ActionView::Fetch(targets.deep_view()),
            Action::Suggest(results) => ActionView::Suggest(results.deep_view()),
            Action::NothingFound => ActionView::NothingFound,
            Action::Ignore => ActionView::Ignore,
        }
    }
}

/// The phase and the action that follow an event.
///
/// Local results end the search. Only where there are none is the rate
/// limit asked for, and only where it is not reached are the known buckets
/// fetched that are not installed.
pub open spec fn next(phase: Phase, installed: Seq<Seq<char>>, event: EventView) -> (Phase, ActionView) {
    match (phase, event) {
        (Phase::Local, EventView::Scanned(results)) => if results.len() == 0 {
            (Phase::RateLimit, ActionView::AskLimit)
        } else {
            (Phase::Finished, ActionView::Report(sorted_by_name(results)))
        },
        (Phase::RateLimit, EventView::Limit(reached)) => if reached {
            (Phase::Finished, ActionView::NothingFound)
        } else {
            (Phase::Remote, ActionView::Fetch(remote_targets_of(installed)))
        },
        (Phase::Remote, EventView::Fetched(results)) => if results.len() == 0 {
            (Phase::Finished, ActionView::NothingFound)
        } else {
            (Phase::Finished, ActionView::Suggest(sorted_by_name(results)))
        },
        _ => (phase, ActionView::Ignore),
    }
}

/// The actions that a sequence of events brings about, from a phase on.
pub open spec fn run(phase: Phase, installed: Seq<Seq<char>>, events: Seq<EventView>) -> Seq<ActionView>
    decreases events.len(),
{
    if events.len() == 0 {
        Seq::empty()
    } else {
        seq![next(phase, installed, events[0]).1] + run(
            next(phase, installed, events[0]).0,
            installed,
            events.drop_first(),
        )
    }
}

/// The action shows the outcome of the search.
pub open spec fn shows(action: ActionView) -> bool {
    action is Report || action is Suggest || action is NothingFound
}

/// Every event brings about one action.
pub proof fn lemma_run_length(phase: Phase, installed: Seq<Seq<char>>, events: Seq<EventView>)
    ensures
        run(phase, installed, events).len() == events.len(),
    decreases events.len(),
{
    if events.len() > 0 {
        lemma_run_length(next(phase, installed, events[0]).0, installed, events.drop_first());
    }
}

/// The known buckets are fetched only after the rate limit was found not
/// to be reached, and the rate limit is asked for only after a local
/// search without results.
pub proof fn lemma_remote_needs_budget(phase: Phase, installed: Seq<Seq<char>>, event: EventView)
    ensures
        next(phase, installed, event).1 is Fetch ==> phase == Phase::RateLimit && event == EventView::Limit(false),
        next(phase, installed, event).1 is AskLimit ==> phase == Phase::Local && event is Scanned
            && event->Scanned_0.len() == 0,
        next(phase, installed, event).0 == Phase::RateLimit && phase != Phase::RateLimit ==> next(
            phase,
            installed,
            event,
        ).1 is AskLimit,
        next(phase, installed, event).0 == Phase::Remote && phase != Phase::Remote ==> next(phase, installed, event).1 is Fetch,
{
}

/// After the search has finished no event brings about an action.
pub proof fn lemma_finished_stays(installed: Seq<Seq<char>>, events: Seq<EventView>)
    ensures
        run(Phase::Finished, installed, events).len() == events.len(),
        forall|i: int| 0 <= i < events.len() ==> (#[trigger] run(Phase::Finished, installed, events)[i]) is Ignore,
    decreases events.len(),
{
    if events.len() > 0 {
        lemma_finished_stays(installed, events.drop_first());
    }
}

/// Once the local search has results, the remote side is never asked:
/// whatever events follow, no action asks for the rate limit or fetches a
/// listing.
pub proof fn lemma_local_results_end_search(
    installed: Seq<Seq<char>>,
    results: Seq<BucketResultView>,
    later: Seq<EventView>,
)
    requires
        results.len() > 0,
    ensures
        forall|i: int|
            0 <= i <= later.len() ==> {
                let action = #[trigger] run(Phase::Local, installed, seq![EventView::Scanned(results)] + later)[i];
                !(action is Fetch) && !(action is AskLimit)
            },
{
    let events = seq![EventView::Scanned(results)] + later;
    assert(events.drop_first() =~= later);
    lemma_finished_stays(installed, later);
    assert forall|i: int| 0 <= i <= later.len() implies {
        let action = #[trigger] run(Phase::Local, installed, events)[i];
        !(action is Fetch) && !(action is AskLimit)
    } by {
        if i > 0 {
            assert(run(Phase::Local, installed, events)[i] == run(Phase::Finished, installed, later)[i - 1]);
        }
    }
}

/// A search shows its outcome once: the local results, or the remote
/// candidates, or that nothing was found, and never two of them. So no
/// bucket is shown both as installed and as a suggestion.
pub proof fn lemma_shows_once(phase: Phase, installed: Seq<Seq<char>>, events: Seq<EventView>, i: int, j: int)
    requires
        0 <= i < j < events.len(),
    ensures
        !(shows(run(phase, installed, events)[i]) && shows(run(phase, installed, events)[j])),
    decreases events.len(),
{
    let first = next(phase, installed, events[0]);
    let rest = events.drop_first();
    lemma_run_length(first.0, installed, rest);
    assert(run(phase, installed, events)[j] == run(first.0, installed, rest)[j - 1]);
    if i == 0 {
        if shows(first.1) {
            lemma_finished_stays(installed, rest);
        }
    } else {
        assert(run(phase, installed, events)[i] == run(first.0, installed, rest)[i - 1]);
        lemma_shows_once(first.0, installed, rest, i - 1, j - 1);
    }
}

/// The phase and the action that follow `event`.
pub fn step(phase: Phase, installed: &Vec<String>, event: Event) -> (r: (Phase, Action))
    ensures
        r.0 == next(phase, installed.deep_view(), event@).0,
        r.1@ == next(phase, installed.deep_view(), event@).1,
{
    match phase {
        Phase::Local => match event {
            Event::Scanned(results) => {
                if results.len() == 0 {
                    (Phase::RateLimit, Action::AskLimit)
                } else {
                    (Phase::Finished, Action::Report(sort_buckets(results)))
                }
            },
            _ => (phase, Action::Ignore),
        },
        Phase::RateLimit => match event {
            Event::Limit(reached) => {
                if reached {
                    (Phase::Finished, Action::NothingFound)
                } else {
                    (Phase::Remote, Action::Fetch(remote_targets(installed)))
                }
            },
            _ => (phase, Action::Ignore),
        },
        Phase::Remote => match event {
            Event::Fetched(results) => {
                if results.len() == 0 {
                    (Phase::Finished, Action::NothingFound)
                } else {
                    (Phase::Finished, Action::Suggest(sort_remote(results)))
                }
            },
            _ => (phase, Action::Ignore),
        },
        Phase::Finished => (phase, Action::Ignore),
    }
}

} // verus!
