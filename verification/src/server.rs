//! The acceptor: from start-up to the accept loop, and what ends it.
//!
//! The server is a state machine. The program that drives it reads the
//! configuration, binds, accepts, and tells the server what came of each; the
//! server answers with what to do next. It listens only after a configuration
//! was loaded and the bind succeeded, and any failure on the way, or of an
//! accept later, ends it for good.

use crate::config::{
    bind_address_of, config_of_document, document_entries, load_config, Config, ConfigError,
};
use vstd::prelude::*;
use vstd::string::StringExecFns;

verus! {

/// Why the server has stopped.
#[derive(Debug, Clone, Copy, PartialEq, Eq, Structural)]
pub enum Stop {
    /// There is no configuration.
    Config(ConfigError),
    /// The port could not be bound.
    BindFailed,
    /// Accepting a connection failed.
    AcceptFailed,
}

impl Stop {
    /// What the reason says, in words.
    pub open spec fn message_of(self) -> Seq<char> {
        match self {
            Stop::Config(e) => e.message_of(),
            Stop::BindFailed => "cannot bind the listening socket"@,
            Stop::AcceptFailed => "cannot accept a connection"@,
        }
    }

    /// What the reason says, in words.
    pub fn message(&self) -> (text: String)
        ensures
            text@ == self.message_of(),
    {
        match self {
            Stop::Config(e) => e.message(),
            Stop::BindFailed => String::from_str("cannot bind the listening socket"),
            Stop::AcceptFailed => String::from_str("cannot accept a connection"),
        }
    }
}

/// Where the server stands.
#[derive(Debug, Clone, Copy, PartialEq, Eq, Structural)]
pub enum Phase {
    /// Nothing has happened yet; the configuration is awaited.
    Starting,
    /// The configuration is loaded; the outcome of the bind is awaited.
    Binding(Config),
    /// The server listens and accepts connections.
    Listening(Config),
    /// The server has stopped and stays so.
    Stopped(Stop),
}

/// What the program reports to the server.
#[derive(Debug, Clone, PartialEq, Eq)]
pub enum Input {
    /// The configuration file was read; this is its text.
    ConfigText(String),
    /// The configuration file could not be read.
    ConfigUnreadable,
    /// The listening socket is bound.
    Bound,
    /// Binding failed.
    BindFailed,
    /// A connection was accepted.
    Accepted,
    /// Accepting failed.
    AcceptFailed,
}

/// The mathematical value of an [`Input`].
pub enum InputView {
    ConfigText(Seq<char>),
    ConfigUnreadable,
    Bound,
    BindFailed,
    Accepted,
    AcceptFailed,
}

impl View for Input {
    type V = InputView;

    open spec fn view(&self) -> InputView {
        match self {
            Input::ConfigText(text) => InputView::ConfigText(text@),
            Input::ConfigUnreadable => InputView::ConfigUnreadable,
            Input::Bound => InputView::Bound,
            Input::BindFailed => InputView::BindFailed,
            Input::Accepted => InputView::Accepted,
            Input::AcceptFailed => InputView::AcceptFailed,
        }
    }
}

/// What the program is to do next.
#[derive(Debug, Clone, PartialEq, Eq)]
pub enum Action {
    /// Bind a listening socket to this address.
    Bind(String),
    /// Wait for the next connection.
    Accept,
    /// Hand the accepted connection to a handler of its own, and wait for the
    /// next connection without waiting for that handler.
    Serve,
    /// Give up, for this reason.
    Exit(Stop),
    /// The report does not fit where the server stands; nothing changes.
    Ignore,
}

/// The mathematical value of an [`Action`].
pub enum ActionView {
    Bind(Seq<char>),
    Accept,
    Serve,
    Exit(Stop),
    Ignore,
}

impl View for Action {
    type V = ActionView;

    open spec fn view(&self) -> ActionView {
        match self {
            Action::Bind(address) => ActionView::Bind(address@),
            Action::Accept => ActionView::Accept,
            Action::Serve => ActionView::Serve,
            Action::Exit(stop) => ActionView::Exit(*stop),
            Action::Ignore => ActionView::Ignore,
        }
    }
}

/// Where the server stands after a report.
pub open spec fn next_phase(phase: Phase, input: InputView) -> Phase {
    match (phase, input) {
        (Phase::Starting, InputView::ConfigText(text)) => match config_of_document(
            document_entries(text),
        ) {
            Ok(config) => Phase::Binding(config),
            Err(e) => Phase::Stopped(Stop::Config(e)),
        },
        (Phase::Starting, InputView::ConfigUnreadable) => Phase::Stopped(
            Stop::Config(ConfigError::Unreadable),
        ),
        (Phase::Binding(config), InputView::Bound) => Phase::Listening(config),
        (Phase::Binding(_), InputView::BindFailed) => Phase::Stopped(Stop::BindFailed),
        (Phase::Listening(_), InputView::AcceptFailed) => Phase::Stopped(Stop::AcceptFailed),
        _ => phase,
    }
}

/// What the server answers to a report.
pub open spec fn action_for(phase: Phase, input: InputView) -> ActionView {
    match (phase, input) {
        (Phase::Starting, InputView::ConfigText(_)) | (Phase::Starting, InputView::ConfigUnreadable)
        | (Phase::Binding(_), InputView::Bound) | (Phase::Binding(_), InputView::BindFailed) | (
            Phase::Listening(_),
            InputView::AcceptFailed,
        ) => match next_phase(phase, input) {
            Phase::Binding(config) => ActionView::Bind(bind_address_of(config.central_ip_port)),
            Phase::Listening(_) => ActionView::Accept,
            Phase::Stopped(stop) => ActionView::Exit(stop),
            Phase::Starting => ActionView::Ignore,
        },
        (Phase::Listening(_), InputView::Accepted) => ActionView::Serve,
        _ => ActionView::Ignore,
    }
}

/// The acceptor's state.
pub struct Server {
    phase: Phase,
}

impl View for Server {
    type V = Phase;

    closed spec fn view(&self) -> Phase {
        self.phase
    }
}

impl Server {
    /// A server that has not started.
    pub fn new() -> (server: Server)
        ensures
            server@ == Phase::Starting,
    {
        Server { phase: Phase::Starting }
    }

    /// Where the server stands.
    pub fn phase(&self) -> (phase: Phase)
        ensures
            phase == self@,
    {
        self.phase
    }

    /// Whether the server listens.
    pub fn is_listening(&self) -> (b: bool)
        ensures
            b == (self@ is Listening),
    {
        match self.phase {
            Phase::Listening(_) => true,
            _ => false,
        }
    }

    /// Takes a report and answers with what to do next.
    pub fn step(&mut self, input: Input) -> (action: Action)
        ensures
            final(self)@ == next_phase(old(self)@, input@),
            action@ == action_for(old(self)@, input@),
    {
        match (self.phase, input) {
            (Phase::Starting, Input::ConfigText(text)) => match load_config(text.as_str()) {
                Ok(config) => {
                    self.phase = Phase::Binding(config);
                    Action::Bind(config.bind_address())
                },
                Err(e) => {
                    self.phase = Phase::Stopped(Stop::Config(e));
                    Action::Exit(Stop::Config(e))
                },
            },
            (Phase::Starting, Input::ConfigUnreadable) => {
                self.phase = Phase::Stopped(Stop::Config(ConfigError::Unreadable));
                Action::Exit(Stop::Config(ConfigError::Unreadable))
            },
            (Phase::Binding(config), Input::Bound) => {
                self.phase = Phase::Listening(config);
                Action::Accept
            },
            (Phase::Binding(_), Input::BindFailed) => {
                self.phase = Phase::Stopped(Stop::BindFailed);
                Action::Exit(Stop::BindFailed)
            },
            (Phase::Listening(_), Input::Accepted) => Action::Serve,
            (Phase::Listening(_), Input::AcceptFailed) => {
                self.phase = Phase::Stopped(Stop::AcceptFailed);
                Action::Exit(Stop::AcceptFailed)
            },
            _ => Action::Ignore,
        }
    }
}

/// Where the server stands after a sequence of reports.
pub open spec fn phase_after(phase: Phase, inputs: Seq<InputView>) -> Phase
    decreases inputs.len(),
{
    if inputs.len() == 0 {
        phase
    } else {
        next_phase(phase_after(phase, inputs.drop_last()), inputs.last())
    }
}

/// Whether the text gives a configuration.
pub open spec fn well_configured(text: Seq<char>) -> bool {
    config_of_document(document_entries(text)) is Ok
}

/// Without a proper configuration the server never listens: if every
/// configuration text that is reported is malformed, then, whatever else is
/// reported and in whatever order, the server neither binds nor listens.
pub proof fn lemma_malformed_config_never_listens(inputs: Seq<InputView>)
    requires
        forall|i: int|
            0 <= i < inputs.len() ==> (#[trigger] inputs[i] matches InputView::ConfigText(text)
                ==> !well_configured(text)),
    ensures
        !(phase_after(Phase::Starting, inputs) is Listening),
        !(phase_after(Phase::Starting, inputs) is Binding),
    decreases inputs.len(),
{
    if inputs.len() > 0 {
        lemma_malformed_config_never_listens(inputs.drop_last());
    }
}

/// The report is a configuration text that gives `config`.
pub open spec fn configures(input: InputView, config: Config) -> bool {
    input matches InputView::ConfigText(text) && config_of_document(document_entries(text)) == Ok::<
        Config,
        ConfigError,
    >(config)
}

/// A server that binds or listens has been configured: its configuration is
/// the one that a text reported earlier gives.
pub proof fn lemma_listening_was_configured(inputs: Seq<InputView>, config: Config)
    requires
        phase_after(Phase::Starting, inputs) == Phase::Binding(config) || phase_after(
            Phase::Starting,
            inputs,
        ) == Phase::Listening(config),
    ensures
        exists|i: int| 0 <= i < inputs.len() && configures(#[trigger] inputs[i], config),
    decreases inputs.len(),
{
    if inputs.len() > 0 {
        let earlier = inputs.drop_last();
        let before = phase_after(Phase::Starting, earlier);
        if before == Phase::Binding(config) || before == Phase::Listening(config) {
            lemma_listening_was_configured(earlier, config);
            let i = choose|i: int| 0 <= i < earlier.len() && configures(#[trigger] earlier[i], config);
            assert(configures(inputs[i], config));
        } else {
            assert(configures(inputs[inputs.len() - 1], config));
        }
    }
}

/// A server that has stopped stays stopped, whatever is reported.
pub proof fn lemma_stopped_is_final(phase: Phase, inputs: Seq<InputView>)
    requires
        phase is Stopped,
    ensures
        phase_after(phase, inputs) == phase,
    decreases inputs.len(),
{
    if inputs.len() > 0 {
        lemma_stopped_is_final(phase, inputs.drop_last());
    }
}

/// A server that listens goes on listening, with the same configuration, as
/// long as no accept fails: however many connections it has handed out, and
/// whatever became of them, it takes the next one.
pub proof fn lemma_listening_goes_on(phase: Phase, inputs: Seq<InputView>)
    requires
        phase is Listening,
        forall|i: int| 0 <= i < inputs.len() ==> #[trigger] inputs[i] != InputView::AcceptFailed,
    ensures
        phase_after(phase, inputs) == phase,
        inputs.len() > 0 && inputs.last() == InputView::Accepted ==> action_for(
            phase_after(phase, inputs.drop_last()),
            inputs.last(),
        ) == ActionView::Serve,
    decreases inputs.len(),
{
    if inputs.len() > 0 {
        lemma_listening_goes_on(phase, inputs.drop_last());
    }
}

} // verus!
