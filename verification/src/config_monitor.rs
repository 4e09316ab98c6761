//! Watching the main node for a change of the global configuration.
//!
//! A change means that a hard fork occurred, and that the consensus state has
//! to be reset: the monitor ends, and the node with it.
use crate::config::GlobalConfig;
use crate::error::{Report, TaskError};
use vstd::prelude::*;

verus! {

/// Milliseconds between two looks at the main node.
pub const MONITOR_INTERVAL_MS: u64 = 5000;

/// What the monitor waits for.
#[derive(Debug)]
pub enum Pending {
    /// The current configuration.
    FetchGlobalConfig,
    /// A verdict on whether the configuration may change to `new`. The fallback
    /// for a main node that does not offer its configuration gives one that
    /// looks different, and that is no change.
    VerifyConfigTransition { new: GlobalConfig },
    /// The end of a pause.
    Sleep { ms: u64 },
    /// Nothing: the configuration has changed to `new`.
    Changed { new: GlobalConfig },
    /// Nothing: the monitor was asked to stop.
    Canceled,
}

/// What can happen to the monitor. An event that does not answer what is
/// pending changes nothing.
#[derive(Debug)]
pub enum Event {
    /// The current configuration, if it could be had.
    Fetched(Option<GlobalConfig>),
    TransitionVerified { admissible: bool },
    Slept,
    Canceled,
}

/// The state of the monitor.
#[derive(Debug)]
pub struct State {
    /// The configuration that the node started with.
    pub initial: GlobalConfig,
    pub pending: Pending,
}

impl State {
    pub open spec fn start(initial: GlobalConfig) -> State {
        State { initial, pending: Pending::FetchGlobalConfig }
    }

    pub open spec fn with(self, pending: Pending) -> State {
        State { pending, ..self }
    }

    pub open spec fn step(self, event: Event) -> State {
        match (self.pending, event) {
            (Pending::FetchGlobalConfig, Event::Fetched(Some(new))) => if self.initial@.same_as(new@) {
                self.with(Pending::Sleep { ms: MONITOR_INTERVAL_MS })
            } else {
                self.with(Pending::VerifyConfigTransition { new })
            },
            (Pending::FetchGlobalConfig, Event::Fetched(None)) => self.with(
                Pending::Sleep { ms: MONITOR_INTERVAL_MS },
            ),
            (
                Pending::VerifyConfigTransition { new },
                Event::TransitionVerified { admissible },
            ) => if admissible {
                self.with(Pending::Changed { new })
            } else {
                self.with(Pending::Sleep { ms: MONITOR_INTERVAL_MS })
            },
            (Pending::Sleep { .. }, Event::Slept) => self.with(Pending::FetchGlobalConfig),
            (Pending::Sleep { .. }, Event::Canceled) => self.with(Pending::Canceled),
            _ => self,
        }
    }

    /// The state after a series of events.
    pub open spec fn run(self, events: Seq<Event>) -> State
        decreases events.len(),
    {
        if events.len() == 0 {
            self
        } else {
            self.run(events.drop_last()).step(events.last())
        }
    }
}

/// What the node says of a change, where the two configurations are shown as
/// given.
pub open spec fn spec_change_message(old_shown: Seq<char>, new_shown: Seq<char>) -> Seq<char> {
    "global config changed: old "@ + old_shown + ", new "@ + new_shown
}

/// What the node says of a change of the configuration.
pub fn change_message(old_shown: &str, new_shown: &str) -> (text: String)
    ensures
        text@ == spec_change_message(old_shown@, new_shown@),
{
    let mut text = "global config changed: old ".to_string();
    text.append(old_shown);
    text.append(", new ");
    text.append(new_shown);
    text
}

/// Monitors the global configuration of the main node.
pub struct ConfigMonitor {
    state: State,
}

impl View for ConfigMonitor {
    type V = State;

    closed spec fn view(&self) -> State {
        self.state
    }
}

impl ConfigMonitor {
    /// A monitor that looks for a configuration other than `initial`.
    pub fn new(initial: GlobalConfig) -> (monitor: ConfigMonitor)
        ensures
            monitor@ == State::start(initial),
    {
        ConfigMonitor { state: State { initial, pending: Pending::FetchGlobalConfig } }
    }

    /// What the monitor waits for.
    pub fn pending(&self) -> (pending: &Pending)
        ensures
            *pending == self@.pending,
    {
        &self.state.pending
    }

    /// The configuration that the node started with.
    pub fn initial_config(&self) -> (initial: &GlobalConfig)
        ensures
            *initial == self@.initial,
    {
        &self.state.initial
    }

    /// How the monitor ended, if it did. The two configurations, the one that the
    /// node started with and the new one, are shown as given.
    pub fn outcome<E>(&self, old_shown: &str, new_shown: &str) -> (outcome: Option<TaskError<E>>)
        ensures
            match self@.pending {
                Pending::Changed { .. } => {
                    &&& outcome matches Some(TaskError::Internal(Report::Text(text)))
                    &&& text@ == spec_change_message(old_shown@, new_shown@)
                },
                Pending::Canceled => outcome == Some(TaskError::<E>::Canceled),
                _ => outcome is None,
            },
    {
        match &self.state.pending {
            Pending::Changed { .. } => Some(
                TaskError::Internal(Report::Text(change_message(old_shown, new_shown))),
            ),
            Pending::Canceled => Some(TaskError::Canceled),
            _ => None,
        }
    }

    /// Takes the event in.
    pub fn step(self, event: Event) -> (next: ConfigMonitor)
        ensures
            next@ == self@.step(event),
    {
        let State { initial, pending } = self.state;
        let pending: Pending = match (pending, event) {
            (Pending::FetchGlobalConfig, Event::Fetched(Some(new))) => {
                if initial.same_as(&new) {
                    Pending::Sleep { ms: MONITOR_INTERVAL_MS }
                } else {
                    Pending::VerifyConfigTransition { new }
                }
            },
            (Pending::FetchGlobalConfig, Event::Fetched(None)) => {
                Pending::Sleep { ms: MONITOR_INTERVAL_MS }
            },
            (
                Pending::VerifyConfigTransition { new },
                Event::TransitionVerified { admissible },
            ) => {
                if admissible {
                    Pending::Changed { new }
                } else {
                    Pending::Sleep { ms: MONITOR_INTERVAL_MS }
                }
            },
            (Pending::Sleep { .. }, Event::Slept) => Pending::FetchGlobalConfig,
            (Pending::Sleep { .. }, Event::Canceled) => Pending::Canceled,
            (pending, _) => pending,
        };
        ConfigMonitor { state: State { initial, pending } }
    }
}

/// Event number `i` gave `new` in answer to a request for the configuration.
pub open spec fn fetched_at(
    initial: GlobalConfig,
    events: Seq<Event>,
    i: int,
    new: GlobalConfig,
) -> bool {
    &&& 0 <= i < events.len()
    &&& State::start(initial).run(events.take(i)).pending is FetchGlobalConfig
    &&& events[i] == Event::Fetched(Some(new))
}

/// Event number `j` says, in answer to just this question, that the change to
/// `new` is admissible.
pub open spec fn admitted_at(
    initial: GlobalConfig,
    events: Seq<Event>,
    j: int,
    new: GlobalConfig,
) -> bool {
    &&& 0 <= j < events.len()
    &&& State::start(initial).run(events.take(j)).pending == (Pending::VerifyConfigTransition {
        new,
    })
    &&& events[j] == (Event::TransitionVerified { admissible: true })
}

/// The main node gave `new`, and the change to it was found admissible later.
pub open spec fn admitted(initial: GlobalConfig, events: Seq<Event>, new: GlobalConfig) -> bool {
    exists|i: int, j: int|
        i < j && #[trigger] fetched_at(initial, events, i, new) && #[trigger] admitted_at(
            initial,
            events,
            j,
            new,
        )
}

/// The monitor reports a change only to a configuration that the main node
/// gave, that differs from the one the node started with, and to which a change
/// was found admissible. It never forgets what the node started with.
pub proof fn lemma_reported_change_is_real(initial: GlobalConfig, events: Seq<Event>)
    ensures
        ({
            let state = State::start(initial).run(events);
            &&& state.initial == initial
            &&& state.pending matches Pending::Changed { new } ==> {
                &&& !initial@.same_as(new@)
                &&& admitted(initial, events, new)
            }
        }),
{
    lemma_change_is_traced(initial, events);
}

proof fn lemma_change_is_traced(initial: GlobalConfig, events: Seq<Event>)
    ensures
        ({
            let state = State::start(initial).run(events);
            &&& state.initial == initial
            &&& state.pending matches Pending::VerifyConfigTransition { new } ==> {
                &&& !initial@.same_as(new@)
                &&& exists|i: int| #[trigger] fetched_at(initial, events, i, new)
            }
            &&& state.pending matches Pending::Changed { new } ==> {
                &&& !initial@.same_as(new@)
                &&& admitted(initial, events, new)
            }
        }),
    decreases events.len(),
{
    if events.len() > 0 {
        let rest = events.drop_last();
        let last = rest.len() as int;
        lemma_change_is_traced(initial, rest);
        let before = State::start(initial).run(rest);
        assert(events.take(last) == rest);
        assert(State::start(initial).run(events) == before.step(events.last()));
        match before.pending {
            Pending::FetchGlobalConfig => {
                if let Event::Fetched(Some(new)) = events.last() {
                    assert(fetched_at(initial, events, last, new));
                }
            },
            Pending::VerifyConfigTransition { new } => {
                let i = choose|i: int| #[trigger] fetched_at(initial, rest, i, new);
                assert(events.take(i) == rest.take(i));
                assert(fetched_at(initial, events, i, new));
                if events.last() == (Event::TransitionVerified { admissible: true }) {
                    assert(admitted_at(initial, events, last, new));
                }
            },
            Pending::Changed { new } => {
                let (i, j) = choose|i: int, j: int|
                    i < j && #[trigger] fetched_at(initial, rest, i, new)
                        && #[trigger] admitted_at(initial, rest, j, new);
                assert(events.take(i) == rest.take(i));
                assert(events.take(j) == rest.take(j));
                assert(fetched_at(initial, events, i, new));
                assert(admitted_at(initial, events, j, new));
            },
            _ => {},
        }
    }
}

/// As long as every configuration that the main node gives is the one the node
/// started with, the monitor ends only where it is asked to.
pub proof fn lemma_no_change_no_report(initial: GlobalConfig, events: Seq<Event>)
    requires
        forall|i: int|
            0 <= i < events.len() ==> ((#[trigger] events[i]) matches Event::Fetched(Some(new))
                ==> initial@.same_as(new@)),
    ensures
        !(State::start(initial).run(events).pending is Changed),
{
    lemma_reported_change_is_real(initial, events);
    if let Pending::Changed { new } = State::start(initial).run(events).pending {
        let i = choose|i: int| #[trigger] fetched_at(initial, events, i, new);
        assert(events[i] == Event::Fetched(Some(new)));
    }
}

/// Any change that is admissible is reported as soon as the monitor sees it.
/// One that is not admissible is passed over, and the monitor looks again after
/// a pause.
pub proof fn lemma_admissible_change_is_reported(state: State, new: GlobalConfig)
    requires
        state.pending is FetchGlobalConfig,
        !state.initial@.same_as(new@),
    ensures
        ({
            let seen = state.step(Event::Fetched(Some(new)));
            let verdict = |admissible: bool| seen.step(Event::TransitionVerified { admissible });
            &&& verdict(true).pending == (Pending::Changed { new })
            &&& verdict(false).step(Event::Slept) == state
        }),
{
}

/// The monitor reports exactly the first admissible change: it has reported a
/// change to `new` if and only if the change to `new` was found admissible, and
/// that happens at most once.
pub proof fn lemma_first_admissible_change_is_reported(
    initial: GlobalConfig,
    events: Seq<Event>,
    new: GlobalConfig,
)
    ensures
        State::start(initial).run(events).pending == (Pending::Changed { new }) <==> exists|j: int|
            #[trigger] admitted_at(initial, events, j, new),
        forall|j: int, k: int, other: GlobalConfig| #[trigger]
            admitted_at(initial, events, j, new) && #[trigger] admitted_at(
                initial,
                events,
                k,
                other,
            ) ==> j == k && new == other,
{
    let state = State::start(initial).run(events);
    if state.pending == (Pending::Changed { new }) {
        lemma_change_is_traced(initial, events);
        let (i, j) = choose|i: int, j: int|
            i < j && #[trigger] fetched_at(initial, events, i, new) && #[trigger] admitted_at(
                initial,
                events,
                j,
                new,
            );
        assert(admitted_at(initial, events, j, new));
    }
    assert forall|j: int| #[trigger] admitted_at(initial, events, j, new) implies state.pending == (
    Pending::Changed { new }) by {
        lemma_change_is_final(initial, events, j, events.len() as int, new);
        assert(events.take(events.len() as int) == events);
    }
    assert forall|j: int, k: int, other: GlobalConfig| #[trigger]
        admitted_at(initial, events, j, new) && #[trigger] admitted_at(
            initial,
            events,
            k,
            other,
        ) implies j == k && new == other by {
        if j < k {
            lemma_change_is_final(initial, events, j, k, new);
        } else if k < j {
            lemma_change_is_final(initial, events, k, j, other);
        }
    }
}

/// After the verdict on `new` at `j`, the monitor stays with `new`.
proof fn lemma_change_is_final(
    initial: GlobalConfig,
    events: Seq<Event>,
    j: int,
    k: int,
    new: GlobalConfig,
)
    requires
        admitted_at(initial, events, j, new),
        j < k <= events.len(),
    ensures
        State::start(initial).run(events.take(k)).pending == (Pending::Changed { new }),
    decreases k,
{
    assert(events.take(k).drop_last() == events.take(k - 1));
    if j + 1 < k {
        lemma_change_is_final(initial, events, j, k - 1, new);
    }
}

/// The monitor begins by asking for the configuration, and asks again after
/// every pause, however long.
pub proof fn lemma_monitor_asks_again_and_again(initial: GlobalConfig, state: State, ms: u64)
    ensures
        State::start(initial).initial == initial,
        State::start(initial).pending is FetchGlobalConfig,
        state.pending == (Pending::Sleep { ms }) ==> {
            &&& state.step(Event::Slept).initial == state.initial
            &&& state.step(Event::Slept).pending is FetchGlobalConfig
        },
{
}

/// What each answer means. A configuration that cannot be had, or that is the
/// one the node started with, is no change. Any other is put to the question
/// whether the change is admissible, and the verdict decides.
pub proof fn lemma_each_answer_has_its_meaning(state: State, new: GlobalConfig)
    ensures
        state.pending is FetchGlobalConfig ==> {
            let given = state.step(Event::Fetched(Some(new)));
            &&& state.step(Event::Fetched(None)).pending == (Pending::Sleep { ms: 5000 })
            &&& state.initial@.same_as(new@) ==> given.pending == (Pending::Sleep { ms: 5000 })
            &&& !state.initial@.same_as(new@) ==> given.pending == (
            Pending::VerifyConfigTransition { new })
        },
        state.pending == (Pending::VerifyConfigTransition { new }) ==> {
            let verdict = |admissible: bool| state.step(Event::TransitionVerified { admissible });
            &&& verdict(true).pending == (Pending::Changed { new })
            &&& verdict(false).pending == (Pending::Sleep { ms: 5000 })
        },
{
}

/// The monitor never forgets what the node started with, can be asked to stop
/// during a pause, stays ended once it has, and is moved only by an event that
/// answers what is pending.
pub proof fn lemma_monitor_ignores_what_it_did_not_ask_for(state: State, event: Event)
    ensures
        state.step(event).initial == state.initial,
        state.pending is Changed || state.pending is Canceled ==> state.step(event) == state,
        state.pending is Sleep ==> state.step(Event::Canceled).pending is Canceled,
        event is Canceled && !(state.pending is Sleep) ==> state.step(event) == state,
        event is Slept && !(state.pending is Sleep) ==> state.step(event) == state,
        event is Fetched && !(state.pending is FetchGlobalConfig) ==> state.step(event) == state,
        event is TransitionVerified && !(state.pending is VerifyConfigTransition) ==> state.step(
            event,
        ) == state,
{
}

/// The text on a change shows the configuration before it, then the one after.
pub proof fn lemma_change_message_shows_both(old_shown: Seq<char>, new_shown: Seq<char>)
    ensures
        spec_change_message(old_shown, new_shown) == "global config changed: old "@ + old_shown
            + ", new "@ + new_shown,
{
}

/// A number of looks at the main node, each with the pause after it.
pub open spec fn looks(answers: Seq<Option<GlobalConfig>>) -> Seq<Event>
    decreases answers.len(),
{
    if answers.len() == 0 {
        Seq::empty()
    } else {
        looks(answers.drop_last()).push(Event::Fetched(answers.last())).push(Event::Slept)
    }
}

/// However often the main node gives nothing new, the monitor goes on looking,
/// and the first admissible change that comes is reported.
pub proof fn lemma_monitor_keeps_looking(
    initial: GlobalConfig,
    answers: Seq<Option<GlobalConfig>>,
    new: GlobalConfig,
)
    requires
        forall|i: int|
            0 <= i < answers.len() ==> ((#[trigger] answers[i]) matches Some(config)
                ==> initial@.same_as(config@)),
        !initial@.same_as(new@),
    ensures
        ({
            let start = State::start(initial);
            let events = looks(answers).push(Event::Fetched(Some(new))).push(
                Event::TransitionVerified { admissible: true },
            );
            &&& start.run(looks(answers)) == start
            &&& start.run(events).pending == (Pending::Changed { new })
        }),
    decreases answers.len(),
{
    let start = State::start(initial);
    if answers.len() > 0 {
        let rest = answers.drop_last();
        assert forall|i: int| 0 <= i < rest.len() implies ((#[trigger] rest[i]) matches Some(config)
            ==> initial@.same_as(config@)) by {
            assert(rest[i] == answers[i]);
        }
        lemma_monitor_keeps_looking(initial, rest, new);
        assert(answers[answers.len() - 1] == answers.last());
        let looked = looks(rest).push(Event::Fetched(answers.last()));
        assert(looks(answers) == looked.push(Event::Slept));
        assert(looks(answers).drop_last() == looked);
        assert(looked.drop_last() == looks(rest));
        assert(start.run(looked) == start.step(Event::Fetched(answers.last())));
        assert(start.run(looks(answers)) == start.run(looked).step(Event::Slept));
    }
    let given = looks(answers).push(Event::Fetched(Some(new)));
    let events = given.push(Event::TransitionVerified { admissible: true });
    assert(given.drop_last() == looks(answers));
    assert(events.drop_last() == given);
    assert(start.run(given) == start.step(Event::Fetched(Some(new))));
    assert(start.run(events) == start.run(given).step(
        Event::TransitionVerified { admissible: true },
    ));
}

} // verus!
