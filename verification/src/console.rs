//! The console program: what its arguments mean, and the loop that keeps its screen up to date.

use crate::address::{result_view, ParseError, ParseErrorView, Url, UrlView};
use crate::connector::{
    origin_refusal, ConnectorView, LogicalOrigin, OriginView, WorkerConnector,
    DEFAULT_CONNECT_TIMEOUT,
};
use crate::endpoint::Certificate;
use crate::text::{decimal, decimal_text, joined, parse_port, port_number, port_round_trip};
use vstd::prelude::*;

verus! {

/// How long, in milliseconds, a round of the console waits for keyboard input: the screen is
/// redrawn about sixty times a second.
pub const INPUT_TIMEOUT: u64 = 16;

/// The arguments of the console.
#[derive(Debug)]
pub struct Args {
    /// Address of the worker to discover the cluster through: a port, a `host:port`, or a full
    /// URL.
    pub seed: String,
    /// Origin the workers answer to.
    pub worker_origin: Option<Url>,
    /// Path to the CA certificate that signs the workers' certificates.
    pub ca_cert: Option<String>,
    /// In milliseconds.
    pub poll_interval: u64,
    /// In milliseconds.
    pub connect_timeout: Option<u64>,
}

/// [`Args`] as a mathematical value.
pub ghost struct ArgsView {
    pub seed: Seq<char>,
    pub worker_origin: Option<UrlView>,
    pub ca_cert: Option<Seq<char>>,
    pub poll_interval: u64,
    pub connect_timeout: Option<u64>,
}

impl View for Args {
    type V = ArgsView;

    open spec fn view(&self) -> ArgsView {
        ArgsView {
            seed: self.seed@,
            worker_origin: match self.worker_origin {
                Some(url) => Some(url@),
                None => None,
            },
            ca_cert: match self.ca_cert {
                Some(path) => Some(path@),
                None => None,
            },
            poll_interval: self.poll_interval,
            connect_timeout: self.connect_timeout,
        }
    }
}

/// The address that a seed stands for: a bare port is one of this machine.
pub open spec fn seed_text(seed: Seq<char>) -> Seq<char> {
    match port_number(seed) {
        Some(port) => "localhost:"@ + decimal(port as nat),
        None => seed,
    }
}

/// What reading the CA certificate gave, as a mathematical value.
pub open spec fn read_view(read: Result<Vec<u8>, String>) -> Result<Seq<u8>, Seq<char>> {
    match read {
        Ok(pem) => Ok(pem@),
        Err(error) => Err(error@),
    }
}

pub open spec fn built_view(built: Result<WorkerConnector, String>) -> Result<
    ConnectorView,
    Seq<char>,
> {
    match built {
        Ok(connector) => Ok(connector@),
        Err(message) => Err(message@),
    }
}

impl ArgsView {
    /// Whether the CA certificate is to be read.
    pub open spec fn reads_ca(self) -> bool {
        self.worker_origin is Some && self.ca_cert is Some
    }

    /// The connector without an origin.
    pub open spec fn plain_connector(self) -> ConnectorView {
        ConnectorView {
            origin: None,
            connect_timeout: match self.connect_timeout {
                Some(timeout) => timeout,
                None => DEFAULT_CONNECT_TIMEOUT,
            },
        }
    }

    /// The connector with an origin, if the origin is accepted.
    pub open spec fn named_connector(self, url: UrlView, ca_certificate: Option<Seq<u8>>) -> Result<
        ConnectorView,
        Seq<char>,
    > {
        match origin_refusal(url, ca_certificate is Some) {
            Some(message) => Err(message),
            None => Ok(
                ConnectorView {
                    origin: Some(OriginView { url, ca_certificate }),
                    ..self.plain_connector()
                },
            ),
        }
    }

    /// The connector that the arguments ask for, or why there is none. `read` is what reading the
    /// CA certificate gives, where there is one to read.
    pub open spec fn connector(self, read: Result<Seq<u8>, Seq<char>>) -> Result<
        ConnectorView,
        Seq<char>,
    > {
        match (self.worker_origin, self.ca_cert) {
            (None, Some(_)) => Err("--ca-cert only applies together with --worker-origin"@),
            (None, None) => Ok(self.plain_connector()),
            (Some(url), None) => self.named_connector(url, None),
            (Some(url), Some(path)) => match read {
                Ok(pem) => self.named_connector(url, Some(pem)),
                Err(error) => Err("failed to read CA certificate "@ + path + ": "@ + error),
            },
        }
    }
}

/// Expands a bare port, which is how the console has always been started, into an authority.
pub fn seed_address(seed: &str) -> (r: String)
    ensures
        r@ == seed_text(seed@),
{
    match parse_port(seed) {
        Some(port) => {
            let number = decimal_text(port as u64);
            joined("localhost:", number.as_str())
        },
        None => seed.to_string(),
    }
}

/// The URL of the seed. It goes through the same normalization as a discovered worker, so that the
/// address the console is started with and the ones the cluster reports are dialed the same way.
pub fn seed_url(connector: &WorkerConnector, seed: &str) -> (r: Result<Url, ParseError>)
    ensures
        result_view(r) == connector@.worker_url(seed_text(seed@)),
        match r {
            Ok(url) => connector@.worker_url(seed_text(seed@)) == Ok::<UrlView, ParseErrorView>(
                url@,
            ),
            Err(error) => connector@.worker_url(seed_text(seed@)) == Err::<
                UrlView,
                ParseErrorView,
            >(error@),
        },
        r matches Ok(url) ==> connector@.placed(seed_text(seed@), url@),
{
    let address = seed_address(seed);
    connector.worker_url(address.as_str())
}

/// Builds the transport policy shared by discovery and every connection to a worker, given what
/// reading the CA certificate gave.
///
/// Accepting a CA and then ignoring it would leave the console talking plaintext to a cluster that
/// the operator believes it is verifying, so a CA without an origin is refused.
pub fn connector_from(args: &Args, read: Result<Vec<u8>, String>) -> (r: Result<
    WorkerConnector,
    String,
>)
    ensures
        built_view(r) == args@.connector(read_view(read)),
        r matches Ok(connector) ==> connector@.wf(),
{
    let connect_timeout: u64 = match args.connect_timeout {
        Some(timeout) => timeout,
        None => DEFAULT_CONNECT_TIMEOUT,
    };
    let connector = WorkerConnector::new(connect_timeout);
    let url: Url = match &args.worker_origin {
        Some(url) => url.clone(),
        None => {
            if args.ca_cert.is_some() {
                return Err("--ca-cert only applies together with --worker-origin".to_string());
            }
            return Ok(connector);
        },
    };
    let ca_certificate: Option<Certificate> = match &args.ca_cert {
        Some(path) => match read {
            Ok(pem) => Some(Certificate { pem }),
            Err(error) => {
                let named = joined("failed to read CA certificate ", path.as_str());
                return Err(joined(joined(named.as_str(), ": ").as_str(), error.as_str()));
            },
        },
        None => None,
    };
    match LogicalOrigin::new(url, ca_certificate) {
        Ok(origin) => Ok(connector.with_origin(origin)),
        Err(message) => Err(message),
    }
}

/// Builds the transport policy shared by discovery and every connection to a worker.
///
/// `read` is called on the path of the CA certificate, and only where there is an origin to use the
/// certificate for.
pub fn build_connector<R: FnOnce(String) -> Result<Vec<u8>, String>>(
    args: &Args,
    read: R,
) -> (r: Result<WorkerConnector, String>)
    requires
        args@.reads_ca() ==> read.requires((args.ca_cert->0,)),
    ensures
        args@.reads_ca() ==> exists|contents: Result<Vec<u8>, String>|
            {
                &&& #[trigger] read.ensures((args.ca_cert->0,), contents)
                &&& built_view(r) == args@.connector(read_view(contents))
            },
        !args@.reads_ca() ==> built_view(r) == args@.connector(Ok(Seq::empty())),
        r matches Ok(connector) ==> connector@.wf(),
{
    match (&args.worker_origin, &args.ca_cert) {
        (Some(_), Some(path)) => {
            let contents = read(path.clone());
            connector_from(args, contents)
        },
        _ => connector_from(args, Ok(Vec::new())),
    }
}

/// What the console is waiting for.
#[derive(Debug, Clone, Copy, PartialEq, Eq, Structural)]
pub enum Phase {
    /// The time, at the start of a round.
    Clock,
    /// The end of a tick.
    Ticking,
    /// The end of a redraw.
    Drawing,
    /// Whether there is input.
    Waiting,
    /// The input.
    Reading,
    /// The end of the reaction to a key.
    Handling,
    /// Whether the user asked to quit.
    Asking,
    /// Nothing: the user quit.
    Stopped,
    /// Nothing: the terminal failed.
    Failed,
}

/// What the console is told. Times are nanoseconds of a clock that never runs backwards.
#[derive(Debug, Clone, Copy, PartialEq, Eq, Structural)]
pub enum Event {
    Time(u128),
    Ticked(u128),
    Drawn,
    InputReady(bool),
    Read { is_key: bool },
    KeyHandled,
    QuitAsked(bool),
    TerminalFailed,
}

/// What the console has to do next.
#[derive(Debug, Clone, Copy, PartialEq, Eq, Structural)]
pub enum Action {
    ReadClock,
    Tick,
    Draw,
    /// Wait for input, at most this many milliseconds.
    AwaitInput(u64),
    ReadInput,
    HandleKey,
    AskToQuit,
    Stop,
    Fail,
}

/// The loop of the console: tick when it is time, draw, react to a key, and over again.
#[derive(Debug, Clone, Copy, PartialEq, Eq, Structural)]
pub struct Rounds {
    /// In milliseconds.
    pub poll_interval: u64,
    /// When the last tick ended, or the console started.
    pub last_poll: u128,
    pub phase: Phase,
}

/// Whether the next tick is due.
pub open spec fn due(rounds: Rounds, now: u128) -> bool {
    let elapsed = if now >= rounds.last_poll {
        now - rounds.last_poll
    } else {
        0
    };
    elapsed >= rounds.poll_interval * 1_000_000
}

/// What is done in a phase.
pub open spec fn action(phase: Phase) -> Action {
    match phase {
        Phase::Clock => Action::ReadClock,
        Phase::Ticking => Action::Tick,
        Phase::Drawing => Action::Draw,
        Phase::Waiting => Action::AwaitInput(INPUT_TIMEOUT),
        Phase::Reading => Action::ReadInput,
        Phase::Handling => Action::HandleKey,
        Phase::Asking => Action::AskToQuit,
        Phase::Stopped => Action::Stop,
        Phase::Failed => Action::Fail,
    }
}

/// The loop after an event. What a phase does not wait for leaves it as it is.
pub open spec fn after(rounds: Rounds, event: Event) -> Rounds {
    match (rounds.phase, event) {
        (Phase::Clock, Event::Time(now)) => if due(rounds, now) {
            Rounds { phase: Phase::Ticking, ..rounds }
        } else {
            Rounds { phase: Phase::Drawing, ..rounds }
        },
        (Phase::Ticking, Event::Ticked(now)) => Rounds {
            phase: Phase::Drawing,
            last_poll: now,
            ..rounds
        },
        (Phase::Drawing, Event::Drawn) => Rounds { phase: Phase::Waiting, ..rounds },
        (Phase::Waiting, Event::InputReady(ready)) => if ready {
            Rounds { phase: Phase::Reading, ..rounds }
        } else {
            Rounds { phase: Phase::Asking, ..rounds }
        },
        (Phase::Reading, Event::Read { is_key }) => if is_key {
            Rounds { phase: Phase::Handling, ..rounds }
        } else {
            Rounds { phase: Phase::Asking, ..rounds }
        },
        (Phase::Handling, Event::KeyHandled) => Rounds { phase: Phase::Asking, ..rounds },
        (Phase::Asking, Event::QuitAsked(quit)) => if quit {
            Rounds { phase: Phase::Stopped, ..rounds }
        } else {
            Rounds { phase: Phase::Clock, ..rounds }
        },
        (Phase::Drawing, Event::TerminalFailed) => Rounds { phase: Phase::Failed, ..rounds },
        (Phase::Waiting, Event::TerminalFailed) => Rounds { phase: Phase::Failed, ..rounds },
        (Phase::Reading, Event::TerminalFailed) => Rounds { phase: Phase::Failed, ..rounds },
        _ => rounds,
    }
}

impl Rounds {
    /// The loop at its start, and with it what to do first: see [`Rounds::action`].
    pub fn new(poll_interval: u64, now: u128) -> (r: Self)
        ensures
            r == (Rounds { poll_interval, last_poll: now, phase: Phase::Clock }),
    {
        Rounds { poll_interval, last_poll: now, phase: Phase::Clock }
    }

    /// What to do next.
    pub fn action(&self) -> (r: Action)
        ensures
            r == action(self.phase),
    {
        match self.phase {
            Phase::Clock => Action::ReadClock,
            Phase::Ticking => Action::Tick,
            Phase::Drawing => Action::Draw,
            Phase::Waiting => Action::AwaitInput(INPUT_TIMEOUT),
            Phase::Reading => Action::ReadInput,
            Phase::Handling => Action::HandleKey,
            Phase::Asking => Action::AskToQuit,
            Phase::Stopped => Action::Stop,
            Phase::Failed => Action::Fail,
        }
    }

    /// Takes note of an event, and says what to do next.
    pub fn on_event(&mut self, event: Event) -> (r: Action)
        ensures
            *final(self) == after(*old(self), event),
            r == action(after(*old(self), event).phase),
    {
        let interval: u128 = self.poll_interval as u128 * 1_000_000;
        match (self.phase, event) {
            (Phase::Clock, Event::Time(now)) => {
                if now.saturating_sub(self.last_poll) >= interval {
                    self.phase = Phase::Ticking;
                } else {
                    self.phase = Phase::Drawing;
                }
            },
            (Phase::Ticking, Event::Ticked(now)) => {
                self.last_poll = now;
                self.phase = Phase::Drawing;
            },
            (Phase::Drawing, Event::Drawn) => {
                self.phase = Phase::Waiting;
            },
            (Phase::Waiting, Event::InputReady(ready)) => {
                self.phase = if ready {
                    Phase::Reading
                } else {
                    Phase::Asking
                };
            },
            (Phase::Reading, Event::Read { is_key }) => {
                self.phase = if is_key {
                    Phase::Handling
                } else {
                    Phase::Asking
                };
            },
            (Phase::Handling, Event::KeyHandled) => {
                self.phase = Phase::Asking;
            },
            (Phase::Asking, Event::QuitAsked(quit)) => {
                self.phase = if quit {
                    Phase::Stopped
                } else {
                    Phase::Clock
                };
            },
            (Phase::Drawing, Event::TerminalFailed) => {
                self.phase = Phase::Failed;
            },
            (Phase::Waiting, Event::TerminalFailed) => {
                self.phase = Phase::Failed;
            },
            (Phase::Reading, Event::TerminalFailed) => {
                self.phase = Phase::Failed;
            },
            _ => {},
        }
        self.action()
    }
}

/// The loop after some events, and what it did for each of them.
pub open spec fn run(rounds: Rounds, events: Seq<Event>) -> (Rounds, Seq<Action>)
    decreases events.len(),
{
    if events.len() == 0 {
        (rounds, seq![])
    } else {
        let (end, actions) = run(after(rounds, events[0]), events.skip(1));
        (end, seq![action(rounds.phase)] + actions)
    }
}

/// What happens in one round: the time it starts at, the time its tick ends at if there is one,
/// whether there is input and whether that is a key, and whether the user asked to quit.
pub ghost struct Round {
    pub now: u128,
    pub tick_end: u128,
    pub ready: bool,
    pub is_key: bool,
    pub quit: bool,
}

/// The events of a round in which the terminal does not fail.
pub open spec fn round_events(rounds: Rounds, round: Round) -> Seq<Event> {
    let tick = if due(rounds, round.now) {
        seq![Event::Ticked(round.tick_end)]
    } else {
        seq![]
    };
    let key = if round.is_key {
        seq![Event::KeyHandled]
    } else {
        seq![]
    };
    let input = if round.ready {
        seq![Event::Read { is_key: round.is_key }] + key
    } else {
        seq![]
    };
    seq![Event::Time(round.now)] + tick + seq![Event::Drawn, Event::InputReady(round.ready)] + input
        + seq![Event::QuitAsked(round.quit)]
}

/// What is done in a round.
pub open spec fn round_actions(rounds: Rounds, round: Round) -> Seq<Action> {
    let tick = if due(rounds, round.now) {
        seq![Action::Tick]
    } else {
        seq![]
    };
    let key = if round.is_key {
        seq![Action::HandleKey]
    } else {
        seq![]
    };
    let input = if round.ready {
        seq![Action::ReadInput] + key
    } else {
        seq![]
    };
    seq![Action::ReadClock] + tick + seq![Action::Draw, Action::AwaitInput(INPUT_TIMEOUT)] + input
        + seq![Action::AskToQuit]
}

/// A round ticks if and only if the interval has passed since the last tick ended, draws once,
/// reacts to a key if one was pressed, and is followed by another unless the user asked to quit.
pub proof fn a_round_ticks_draws_and_reacts(rounds: Rounds, round: Round)
    requires
        rounds.phase == Phase::Clock,
    ensures
        run(rounds, round_events(rounds, round)) == (
            Rounds {
                phase: if round.quit {
                    Phase::Stopped
                } else {
                    Phase::Clock
                },
                last_poll: if due(rounds, round.now) {
                    round.tick_end
                } else {
                    rounds.last_poll
                },
                ..rounds
            },
            round_actions(rounds, round),
        ),
{
    reveal_with_fuel(run, 8);
    let events = round_events(rounds, round);
    let actions = run(rounds, events).1;
    assert(actions =~= round_actions(rounds, round));
}

/// Once the user quit or the terminal failed, nothing more is done.
pub proof fn the_end_is_final(rounds: Rounds, events: Seq<Event>)
    requires
        rounds.phase == Phase::Stopped || rounds.phase == Phase::Failed,
    ensures
        run(rounds, events).0 == rounds,
        forall|i: int|
            0 <= i < events.len() ==> #[trigger] run(rounds, events).1[i] == action(rounds.phase),
        run(rounds, events).1.len() == events.len(),
    decreases events.len(),
{
    if events.len() > 0 {
        the_end_is_final(rounds, events.skip(1));
    }
}

/// Ticks are at least the interval apart: after a tick ended at `tick_end`, whatever happens up to
/// the next, the next one starts only when the interval has passed.
pub proof fn ticks_are_an_interval_apart(
    rounds: Rounds,
    tick_end: u128,
    events: Seq<Event>,
    event: Event,
)
    requires
        rounds.phase == Phase::Ticking,
        ({
            let ended = after(rounds, Event::Ticked(tick_end));
            &&& !run(ended, events).1.contains(Action::Tick)
            &&& run(ended, events).0.phase != Phase::Ticking
            &&& after(run(ended, events).0, event).phase == Phase::Ticking
        }),
    ensures
        event matches Event::Time(now) && (now - tick_end >= rounds.poll_interval * 1_000_000
            || rounds.poll_interval == 0),
{
    lemma_last_poll_stays(after(rounds, Event::Ticked(tick_end)), events);
}

/// The time of the last tick stays while there is no other.
proof fn lemma_last_poll_stays(rounds: Rounds, events: Seq<Event>)
    requires
        !run(rounds, events).1.contains(Action::Tick),
    ensures
        run(rounds, events).0.last_poll == rounds.last_poll,
        run(rounds, events).0.poll_interval == rounds.poll_interval,
    decreases events.len(),
{
    if events.len() > 0 {
        let (end, actions) = run(after(rounds, events[0]), events.skip(1));
        let all = run(rounds, events).1;
        assert(all[0] == action(rounds.phase));
        assert(all.skip(1) =~= actions);
        assert forall|i: int| 0 <= i < actions.len() implies actions[i] != Action::Tick by {
            assert(actions[i] == all[i + 1]);
        }
        lemma_last_poll_stays(after(rounds, events[0]), events.skip(1));
    }
}

/// A bare port stands for that port of this machine.
pub proof fn a_bare_port_is_a_local_one(port: u16)
    ensures
        seed_text(decimal(port as nat)) == "localhost:"@ + decimal(port as nat),
{
    port_round_trip(port);
}

/// Expanding a seed twice is expanding it once.
pub proof fn seeds_are_expanded_once(seed: Seq<char>)
    ensures
        seed_text(seed_text(seed)) == seed_text(seed),
{
    reveal_strlit("localhost:");
    if port_number(seed) is Some {
        let text = seed_text(seed);
        assert(text[0] == 'l');
        assert(port_number(text) is None);
    }
}

/// A CA without an origin is refused, whatever else is asked for.
pub proof fn a_ca_needs_an_origin(args: ArgsView, read: Result<Seq<u8>, Seq<char>>)
    requires
        args.ca_cert is Some,
    ensures
        args.connector(read) is Ok ==> args.worker_origin is Some && (args.connector(
            read,
        )->Ok_0.origin matches Some(origin) && origin.ca_certificate is Some && origin.wf()),
{
}

/// A seed that spells a port is that port of this machine, and any other seed is left as it is.
pub proof fn only_ports_are_expanded(seed: Seq<char>)
    ensures
        port_number(seed) is None ==> seed_text(seed) == seed,
        port_number(seed) matches Some(port) ==> seed_text(seed) == "localhost:"@ + decimal(
            port as nat,
        ),
{
}

/// The next tick is due once the interval has passed since the last one ended, and not before. A
/// clock that shows an earlier time counts as one that stands still.
pub proof fn when_a_tick_is_due(rounds: Rounds, now: u128)
    ensures
        due(rounds, now) <==> now >= rounds.last_poll + rounds.poll_interval * 1_000_000
            || rounds.poll_interval == 0,
        due(Rounds { last_poll: now, ..rounds }, now) <==> rounds.poll_interval == 0,
{
}

/// What the loop makes of each event that it waits for. A tick that ends sets the time that the next
/// interval is counted from, and nothing else changes it; nothing changes the interval.
pub proof fn what_the_loop_makes_of_events(rounds: Rounds, event: Event)
    ensures
        after(rounds, event).poll_interval == rounds.poll_interval,
        after(rounds, event).last_poll == match (rounds.phase, event) {
            (Phase::Ticking, Event::Ticked(now)) => now,
            _ => rounds.last_poll,
        },
        rounds.phase is Clock ==> (event matches Event::Time(now) ==> (if now >= rounds.last_poll
            + rounds.poll_interval * 1_000_000 || rounds.poll_interval == 0 {
            after(rounds, event).phase is Ticking
        } else {
            after(rounds, event).phase is Drawing
        })),
        rounds.phase is Ticking && event is Ticked ==> after(rounds, event).phase is Drawing,
        rounds.phase is Drawing && event is Drawn ==> after(rounds, event).phase is Waiting,
        rounds.phase is Waiting && event == Event::InputReady(true) ==> after(
            rounds,
            event,
        ).phase is Reading,
        rounds.phase is Waiting && event == Event::InputReady(false) ==> after(
            rounds,
            event,
        ).phase is Asking,
        rounds.phase is Reading && event == (Event::Read { is_key: true }) ==> after(
            rounds,
            event,
        ).phase is Handling,
        rounds.phase is Reading && event == (Event::Read { is_key: false }) ==> after(
            rounds,
            event,
        ).phase is Asking,
        rounds.phase is Handling && event is KeyHandled ==> after(rounds, event).phase is Asking,
        rounds.phase is Asking && event == Event::QuitAsked(true) ==> after(
            rounds,
            event,
        ).phase is Stopped,
        rounds.phase is Asking && event == Event::QuitAsked(false) ==> after(
            rounds,
            event,
        ).phase is Clock,
        (rounds.phase is Drawing || rounds.phase is Waiting || rounds.phase is Reading)
            && event is TerminalFailed ==> after(rounds, event).phase is Failed,
{
}

/// An event that the loop does not wait for changes nothing: each phase waits for one event, and
/// those that use the terminal for its failure.
pub proof fn other_events_change_nothing(rounds: Rounds, event: Event)
    requires
        match rounds.phase {
            Phase::Clock => !(event is Time),
            Phase::Ticking => !(event is Ticked),
            Phase::Drawing => !(event is Drawn) && !(event is TerminalFailed),
            Phase::Waiting => !(event is InputReady) && !(event is TerminalFailed),
            Phase::Reading => !(event is Read) && !(event is TerminalFailed),
            Phase::Handling => !(event is KeyHandled),
            Phase::Asking => !(event is QuitAsked),
            Phase::Stopped => true,
            Phase::Failed => true,
        },
    ensures
        after(rounds, event) == rounds,
{
}

/// What is done in each phase: no two of them do the same, and input is waited for no longer than
/// sixteen milliseconds.
pub proof fn what_is_done_in_each_phase(phase: Phase, other: Phase)
    ensures
        action(phase) is ReadClock <==> phase is Clock,
        action(phase) is Tick <==> phase is Ticking,
        action(phase) is Draw <==> phase is Drawing,
        action(phase) is AwaitInput <==> phase is Waiting,
        action(phase) matches Action::AwaitInput(timeout) ==> timeout == 16,
        action(phase) is ReadInput <==> phase is Reading,
        action(phase) is HandleKey <==> phase is Handling,
        action(phase) is AskToQuit <==> phase is Asking,
        action(phase) is Stop <==> phase is Stopped,
        action(phase) is Fail <==> phase is Failed,
        action(phase) == action(other) <==> phase == other,
{
}

/// Which connector the arguments ask for. Its connect timeout is the one that is asked for, or else
/// a second. It has an origin if and only if one is asked for, with the CA that was read if there is
/// one; a CA is never dropped.
pub proof fn which_connector_is_built(args: ArgsView, read: Result<Seq<u8>, Seq<char>>)
    ensures
        args.connector(read) matches Ok(connector) ==> {
            &&& connector.connect_timeout == match args.connect_timeout {
                Some(timeout) => timeout,
                None => 1000,
            }
            &&& connector.origin is Some <==> args.worker_origin is Some
            &&& connector.origin matches Some(origin) ==> {
                &&& args.worker_origin == Some(origin.url)
                &&& args.ca_cert is Some ==> read is Ok && origin.ca_certificate == Some(
                    read->Ok_0,
                )
                &&& args.ca_cert is None ==> origin.ca_certificate is None
            }
        },
{
}

/// Why no connector is built: for a CA without an origin, for a CA that cannot be read, or because
/// the origin is refused, and for nothing else.
pub proof fn why_no_connector_is_built(args: ArgsView, read: Result<Seq<u8>, Seq<char>>)
    ensures
        args.connector(read) == Err::<ConnectorView, Seq<char>>(
            "--ca-cert only applies together with --worker-origin"@,
        ) <== args.worker_origin is None && args.ca_cert is Some,
        args.worker_origin is Some && args.ca_cert is Some && read is Err ==> args.connector(read)
            == Err::<ConnectorView, Seq<char>>(
            "failed to read CA certificate "@ + args.ca_cert->0 + ": "@ + read->Err_0,
        ),
        args.worker_origin is Some && (args.ca_cert is None || read is Ok) ==> match origin_refusal(
            args.worker_origin->0,
            args.ca_cert is Some,
        ) {
            Some(message) => args.connector(read) == Err::<ConnectorView, Seq<char>>(message),
            None => args.connector(read) is Ok,
        },
        args.worker_origin is None && args.ca_cert is None ==> args.connector(read) is Ok,
        args.reads_ca() <==> args.worker_origin is Some && args.ca_cert is Some,
{
}

/// The view of the arguments leaves nothing out.
pub proof fn arguments_are_seen_whole(args: Args)
    ensures
        args@.seed == args.seed@,
        args@.worker_origin is Some <==> args.worker_origin is Some,
        args.worker_origin matches Some(url) ==> args@.worker_origin == Some(url@),
        args@.ca_cert is Some <==> args.ca_cert is Some,
        args.ca_cert matches Some(path) ==> args@.ca_cert == Some(path@),
        args@.poll_interval == args.poll_interval,
        args@.connect_timeout == args.connect_timeout,
{
}

/// The views of what was read and of what was built leave nothing out.
pub proof fn results_are_seen_whole(
    read: Result<Vec<u8>, String>,
    built: Result<WorkerConnector, String>,
)
    ensures
        match read {
            Ok(pem) => read_view(read) == Ok::<Seq<u8>, Seq<char>>(pem@),
            Err(error) => read_view(read) == Err::<Seq<u8>, Seq<char>>(error@),
        },
        match built {
            Ok(connector) => built_view(built) == Ok::<ConnectorView, Seq<char>>(connector@),
            Err(message) => built_view(built) == Err::<ConnectorView, Seq<char>>(message@),
        },
{
}

} // verus!
