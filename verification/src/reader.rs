//! The loop that carries a pane's output from its pty to the parser.
//!
//! A thread reads the pty and relays each chunk; the loop below forwards the
//! chunks to the parser, and keeps the pane going when the parser or the pty
//! reader dies under it, a limited number of times. `PaneReader` makes the
//! decisions and holds the chunk that is on its way. Its caller carries out the
//! commands, looks at the phase to see what is waited for, and reports that as a
//! `ReaderEvent`.
use crate::client::opt_text;
use crate::host::{ExitBehavior, Platform};
use crate::parser::{joined, lemma_joined_add, lemma_joined_one};
use crate::text::bytes_of;
use vstd::prelude::*;
use vstd::utf8::encode_utf8;

verus! {

/// How often a dead parser is replaced.
pub const MAX_PARSER_RECOVERIES: u32 = 5;

/// How often a dead pty reader is replaced.
pub const MAX_READER_RECOVERIES: u32 = 3;

/// How long the loop waits for a chunk before it looks around, in milliseconds.
pub const RECEIVE_TIMEOUT_MS: u64 = 500;

/// The outcome of one read from the pty.
#[derive(Clone, Copy, Debug, PartialEq, Eq, Structural)]
pub enum PtyRead {
    /// So many bytes were read; none means that the pty is at its end.
    Bytes(usize),
    Failed,
}

/// What the pty thread relays for one read.
#[derive(Clone, Copy, Debug, PartialEq, Eq, Structural)]
pub enum Relayed {
    Chunk(usize),
    EndOfFile,
    Error,
}

/// What to relay after a read from the pty.
pub fn relay_read(read: PtyRead) -> (relayed: Relayed)
    ensures
        relayed == (match read {
            PtyRead::Bytes(n) => if n == 0 {
                Relayed::EndOfFile
            } else {
                Relayed::Chunk(n)
            },
            PtyRead::Failed => Relayed::Error,
        }),
{
    match read {
        PtyRead::Bytes(n) => {
            if n == 0 {
                Relayed::EndOfFile
            } else {
                Relayed::Chunk(n)
            }
        },
        PtyRead::Failed => Relayed::Error,
    }
}

/// Whether the pty thread reads on: only after a chunk that somebody took.
pub fn keep_reading(relayed: Relayed, taken: bool) -> (goes_on: bool)
    ensures
        goes_on == (relayed is Chunk && taken),
{
    match relayed {
        Relayed::Chunk(_) => taken,
        _ => false,
    }
}

/// What is known of a pane whose pty reader has gone.
#[derive(Clone, Copy, Debug, PartialEq, Eq, Structural)]
pub enum PaneLiveness {
    /// The pane itself no longer exists.
    Gone,
    /// The pane exists, but its program has ended.
    Dead,
    /// The program in the pane is still running.
    Alive,
}

/// What the caller reports back to the loop.
pub enum ReaderEvent {
    /// Whether the parser has exited, and whether the pane still exists.
    ParserStatus { needs_recovery: bool, pane_exists: bool },
    /// A chunk arrived; an empty one marks the end of the pty.
    Chunk { data: Vec<u8> },
    /// Reading the pty failed.
    ReadError,
    /// No chunk arrived in time; `dead` tells whether the parser found the pane
    /// gone.
    TimedOut { dead: bool },
    /// The pty thread is gone.
    Disconnected { pane: PaneLiveness },
    /// Whether the parser took the chunk that was sent to it.
    Sent { taken: bool },
    /// Whether the pane could provide a new reader for its pty.
    NewReader { available: bool },
}

/// What the caller is to do before it turns to the next phase.
#[derive(Debug, PartialEq)]
pub enum ReaderCommand {
    /// Send this to the parser. An empty message tells it that the output is over.
    Send(Vec<u8>),
    /// Note that the parser needs no recovery.
    ClearRecoveryFlag,
    /// Set up a new channel and a new dead flag, note that the parser needs no
    /// recovery, and start a new parser on the channel.
    RestartParser,
    /// Start a pty thread for the new reader and receive from it.
    StartReader,
}

/// The contents of a command.
#[verifier::ext_equal]
pub enum ReaderDeed {
    Send(Seq<u8>),
    ClearRecoveryFlag,
    RestartParser,
    StartReader,
}

impl View for ReaderCommand {
    type V = ReaderDeed;

    open spec fn view(&self) -> ReaderDeed {
        match *self {
            ReaderCommand::Send(data) => ReaderDeed::Send(data@),
            ReaderCommand::ClearRecoveryFlag => ReaderDeed::ClearRecoveryFlag,
            ReaderCommand::RestartParser => ReaderDeed::RestartParser,
            ReaderCommand::StartReader => ReaderDeed::StartReader,
        }
    }
}

/// The contents of a list of commands.
pub open spec fn reader_deeds(commands: Seq<ReaderCommand>) -> Seq<ReaderDeed> {
    commands.map_values(|c: ReaderCommand| c@)
}

/// The message that tells the parser that the output is over.
pub open spec fn send_eof() -> ReaderDeed {
    ReaderDeed::Send(Seq::empty())
}

/// What the loop waits to be told.
#[derive(Clone, Copy, Debug, PartialEq, Eq, Structural)]
pub enum ReaderPhase {
    /// The state of the parser, at the top of the loop.
    CheckParser,
    /// The next chunk.
    Receive,
    /// The state of the parser, with a chunk in hand.
    CheckBeforeSend,
    /// Whether the parser took the chunk; `recovered` if the parser was
    /// replaced just before.
    Send { recovered: bool },
    /// Whether the pane has a new reader.
    AwaitReader,
    /// Nothing: the loop has ended.
    Finished,
}

/// How an attempt to replace a dead parser came out.
#[derive(Clone, Copy, Debug, PartialEq, Eq, Structural)]
pub enum Recovery {
    LimitReached,
    PaneGone,
    Restarted,
}

/// The loop's state.
#[verifier::ext_equal]
pub struct ReaderState {
    pub platform: Platform,
    pub phase: ReaderPhase,
    /// Whether the chunks come from a replacement pty thread.
    pub nested: bool,
    /// Attempts to replace the parser so far.
    pub parser_recoveries: u32,
    /// Replacements of the pty thread so far.
    pub reader_recoveries: u32,
    /// The chunk that has been received and not been sent yet.
    pub held: Seq<u8>,
}

/// The loop for one pane.
#[derive(Debug)]
pub struct PaneReader {
    pub platform: Platform,
    pub phase: ReaderPhase,
    pub nested: bool,
    pub parser_recoveries: u32,
    pub reader_recoveries: u32,
    pub held: Vec<u8>,
}

impl View for PaneReader {
    type V = ReaderState;

    open spec fn view(&self) -> ReaderState {
        ReaderState {
            platform: self.platform,
            phase: self.phase,
            nested: self.nested,
            parser_recoveries: self.parser_recoveries,
            reader_recoveries: self.reader_recoveries,
            held: self.held@,
        }
    }
}

/// The loop at its start.
pub open spec fn first_state(platform: Platform) -> ReaderState {
    ReaderState {
        platform,
        phase: ReaderPhase::CheckParser,
        nested: false,
        parser_recoveries: 0,
        reader_recoveries: 0,
        held: Seq::empty(),
    }
}

/// What is done at the start: the parser gets the banner.
pub open spec fn first_deeds(banner: Option<Seq<char>>) -> Seq<ReaderDeed> {
    match banner {
        Some(text) => seq![ReaderDeed::Send(encode_utf8(text))],
        None => Seq::empty(),
    }
}

impl ReaderState {
    pub open spec fn wf(self) -> bool {
        &&& self.reader_recoveries <= MAX_READER_RECOVERIES
        &&& self.parser_recoveries <= MAX_PARSER_RECOVERIES + 1
        &&& self.phase != ReaderPhase::Finished ==> self.parser_recoveries <= MAX_PARSER_RECOVERIES
        &&& self.platform == Platform::Other ==> self.parser_recoveries == 0
        &&& self.nested ==> self.reader_recoveries > 0
        &&& self.phase == ReaderPhase::AwaitReader ==> !self.nested && self.reader_recoveries
            < MAX_READER_RECOVERIES
        &&& self.phase == ReaderPhase::CheckBeforeSend ==> self.held.len() > 0
        &&& self.phase != ReaderPhase::CheckBeforeSend && self.phase != ReaderPhase::Finished
            ==> self.held.len() == 0
    }

    /// Whether `event` answers what the current phase waits for.
    pub open spec fn expects(self, event: ReaderEvent) -> bool {
        match self.phase {
            ReaderPhase::CheckParser | ReaderPhase::CheckBeforeSend => event is ParserStatus,
            ReaderPhase::Receive => event is Chunk || event is ReadError || event is TimedOut
                || event is Disconnected,
            ReaderPhase::Send { recovered } => event is Sent,
            ReaderPhase::AwaitReader => event is NewReader,
            ReaderPhase::Finished => false,
        }
    }

    pub open spec fn at(self, phase: ReaderPhase) -> ReaderState {
        ReaderState { phase, ..self }
    }

    /// The chunk in hand is sent.
    pub open spec fn sending(self, recovered: bool) -> ReaderState {
        ReaderState { held: Seq::empty(), ..self.at(ReaderPhase::Send { recovered }) }
    }

    /// The outcome of an attempt to replace the parser.
    pub open spec fn recovery(self, pane_exists: bool) -> Recovery {
        if self.parser_recoveries >= MAX_PARSER_RECOVERIES {
            Recovery::LimitReached
        } else if !pane_exists {
            Recovery::PaneGone
        } else {
            Recovery::Restarted
        }
    }

    /// A dead parser: off Windows this ends the loop; on Windows the parser is
    /// replaced, and gets the chunk in hand if there is one, unless that has been
    /// tried too often or the pane is gone.
    pub open spec fn after_parser_death(self, pane_exists: bool) -> (ReaderState, Seq<ReaderDeed>) {
        if self.platform == Platform::Other {
            (self.at(ReaderPhase::Finished), Seq::empty())
        } else {
            let tried = ReaderState {
                parser_recoveries: (self.parser_recoveries + 1) as u32,
                ..self
            };
            match self.recovery(pane_exists) {
                Recovery::LimitReached => (tried.at(ReaderPhase::Finished), seq![send_eof()]),
                Recovery::PaneGone => (
                    tried.at(ReaderPhase::Finished),
                    seq![ReaderDeed::ClearRecoveryFlag],
                ),
                Recovery::Restarted => if self.phase == ReaderPhase::CheckBeforeSend {
                    (
                        tried.sending(true),
                        seq![ReaderDeed::RestartParser, ReaderDeed::Send(self.held)],
                    )
                } else {
                    (tried.at(ReaderPhase::CheckParser), seq![ReaderDeed::RestartParser])
                },
            }
        }
    }

    /// The pty thread is gone. Under a replacement thread this hands back to
    /// the main loop, where a further replacement is sought while the limit
    /// allows it and the program in the pane is running.
    pub open spec fn after_disconnect(self, pane: PaneLiveness) -> (ReaderState, Seq<ReaderDeed>) {
        if self.nested {
            (ReaderState { nested: false, ..self.at(ReaderPhase::CheckParser) }, Seq::empty())
        } else if self.reader_recoveries < MAX_READER_RECOVERIES && pane == PaneLiveness::Alive {
            (self.at(ReaderPhase::AwaitReader), Seq::empty())
        } else {
            (self.at(ReaderPhase::Finished), seq![send_eof()])
        }
    }

    /// The state that `event` leads to, and what is to be done on the way.
    pub open spec fn after(self, event: ReaderEvent) -> (ReaderState, Seq<ReaderDeed>) {
        let done = self.at(ReaderPhase::Finished);
        let again = self.at(ReaderPhase::CheckParser);
        match event {
            ReaderEvent::ParserStatus { needs_recovery, pane_exists } => if needs_recovery {
                self.after_parser_death(pane_exists)
            } else if self.phase == ReaderPhase::CheckBeforeSend {
                (self.sending(false), seq![ReaderDeed::Send(self.held)])
            } else {
                (self.at(ReaderPhase::Receive), Seq::empty())
            },
            ReaderEvent::Chunk { data } => if data@.len() == 0 {
                (done, seq![send_eof()])
            } else {
                (
                    ReaderState { held: data@, ..self.at(ReaderPhase::CheckBeforeSend) },
                    Seq::empty(),
                )
            },
            ReaderEvent::ReadError => (done, seq![send_eof()]),
            ReaderEvent::TimedOut { dead } => if dead {
                (done, Seq::empty())
            } else {
                (again, Seq::empty())
            },
            ReaderEvent::Disconnected { pane } => self.after_disconnect(pane),
            ReaderEvent::Sent { taken } => {
                let retries = self.platform == Platform::Windows && self.phase
                    != (ReaderPhase::Send { recovered: true });
                if taken || retries {
                    (again, Seq::empty())
                } else {
                    (done, Seq::empty())
                }
            },
            ReaderEvent::NewReader { available } => if available {
                (
                    ReaderState {
                        nested: true,
                        reader_recoveries: (self.reader_recoveries + 1) as u32,
                        ..again
                    },
                    seq![ReaderDeed::StartReader],
                )
            } else {
                (done, seq![send_eof()])
            },
        }
    }
}

impl PaneReader {
    /// The loop for a pane, at its start, and what is done first; there is none if
    /// the pane is already gone.
    pub fn new(platform: Platform, pane_exists: bool, banner: Option<String>) -> (reader: Option<
        (PaneReader, Vec<ReaderCommand>),
    >)
        ensures
            match reader {
                Some((r, commands)) => {
                    &&& pane_exists
                    &&& r@ == first_state(platform)
                    &&& r@.wf()
                    &&& reader_deeds(commands@) == first_deeds(opt_text(banner))
                },
                None => !pane_exists,
            },
    {
        if !pane_exists {
            return None;
        }
        let reader = PaneReader {
            platform,
            phase: ReaderPhase::CheckParser,
            nested: false,
            parser_recoveries: 0,
            reader_recoveries: 0,
            held: Vec::new(),
        };
        let mut commands: Vec<ReaderCommand> = Vec::new();
        if let Some(text) = &banner {
            commands.push(ReaderCommand::Send(bytes_of(text.as_str())));
        }
        proof {
            assert(reader_deeds(commands@) =~= first_deeds(opt_text(banner)));
            assert(reader@ =~= first_state(platform));
        }
        Some((reader, commands))
    }

    /// Hands out the chunk in hand.
    fn take_held(&mut self) -> (data: Vec<u8>)
        ensures
            data@ == old(self)@.held,
            final(self)@ == (ReaderState { held: Seq::empty(), ..old(self)@ }),
    {
        let mut data: Vec<u8> = Vec::new();
        std::mem::swap(&mut data, &mut self.held);
        data
    }

    /// Counts an attempt to replace the parser and tells how it comes out.
    fn do_recovery(&mut self, pane_exists: bool) -> (recovery: Recovery)
        requires
            old(self)@.parser_recoveries <= MAX_PARSER_RECOVERIES,
        ensures
            recovery == old(self)@.recovery(pane_exists),
            final(self)@ == (ReaderState {
                parser_recoveries: (old(self)@.parser_recoveries + 1) as u32,
                ..old(self)@
            }),
    {
        self.parser_recoveries = self.parser_recoveries + 1;
        if self.parser_recoveries > MAX_PARSER_RECOVERIES {
            Recovery::LimitReached
        } else if !pane_exists {
            Recovery::PaneGone
        } else {
            Recovery::Restarted
        }
    }

    fn parser_died(&mut self, pane_exists: bool) -> (commands: Vec<ReaderCommand>)
        requires
            old(self)@.parser_recoveries <= MAX_PARSER_RECOVERIES,
        ensures
            (final(self)@, reader_deeds(commands@)) == old(self)@.after_parser_death(pane_exists),
    {
        let mut commands: Vec<ReaderCommand> = Vec::new();
        if self.platform == Platform::Other {
            self.phase = ReaderPhase::Finished;
        } else {
            match self.do_recovery(pane_exists) {
                Recovery::LimitReached => {
                    self.phase = ReaderPhase::Finished;
                    commands.push(ReaderCommand::Send(Vec::new()));
                },
                Recovery::PaneGone => {
                    self.phase = ReaderPhase::Finished;
                    commands.push(ReaderCommand::ClearRecoveryFlag);
                },
                Recovery::Restarted => {
                    commands.push(ReaderCommand::RestartParser);
                    if self.phase == ReaderPhase::CheckBeforeSend {
                        let data = self.take_held();
                        commands.push(ReaderCommand::Send(data));
                        self.phase = ReaderPhase::Send { recovered: true };
                    } else {
                        self.phase = ReaderPhase::CheckParser;
                    }
                },
            }
        }
        assert(reader_deeds(commands@) =~= old(self)@.after_parser_death(pane_exists).1);
        commands
    }

    /// The part of the loop that is the same under the first pty thread and
    /// under a replacement.
    fn step(&mut self, event: ReaderEvent) -> (commands: Vec<ReaderCommand>)
        requires
            old(self)@.wf(),
            old(self)@.expects(event),
            !(event is Disconnected),
            !(event is NewReader),
        ensures
            (final(self)@, reader_deeds(commands@)) == old(self)@.after(event),
    {
        let mut commands: Vec<ReaderCommand> = Vec::new();
        let ghost heard = event;
        match event {
            ReaderEvent::ParserStatus { needs_recovery, pane_exists } => {
                if needs_recovery {
                    return self.parser_died(pane_exists);
                }
                if self.phase == ReaderPhase::CheckBeforeSend {
                    let data = self.take_held();
                    commands.push(ReaderCommand::Send(data));
                    self.phase = ReaderPhase::Send { recovered: false };
                } else {
                    self.phase = ReaderPhase::Receive;
                }
            },
            ReaderEvent::Chunk { data } => {
                if data.len() == 0 {
                    self.phase = ReaderPhase::Finished;
                    commands.push(ReaderCommand::Send(Vec::new()));
                } else {
                    self.held = data;
                    self.phase = ReaderPhase::CheckBeforeSend;
                }
            },
            ReaderEvent::ReadError => {
                self.phase = ReaderPhase::Finished;
                commands.push(ReaderCommand::Send(Vec::new()));
            },
            ReaderEvent::TimedOut { dead } => {
                self.phase =
                if dead {
                    ReaderPhase::Finished
                } else {
                    ReaderPhase::CheckParser
                };
            },
            ReaderEvent::Sent { taken } => {
                let recovered = match self.phase {
                    ReaderPhase::Send { recovered } => recovered,
                    _ => false,
                };
                self.phase =
                if taken || (self.platform == Platform::Windows && !recovered) {
                    ReaderPhase::CheckParser
                } else {
                    ReaderPhase::Finished
                };
            },
            _ => {},
        }
        assert(reader_deeds(commands@) =~= old(self)@.after(heard).1);
        assert(self@ =~= old(self)@.after(heard).0);
        commands
    }

    /// One step under a replacement pty thread. The answer is `None` while that
    /// thread is in use, `Some(true)` when it is gone and a further replacement
    /// may be sought, and `Some(false)` when the whole loop has ended.
    pub fn run_reader_loop(&mut self, event: ReaderEvent) -> (out: (
        Vec<ReaderCommand>,
        Option<bool>,
    ))
        requires
            old(self)@.wf(),
            old(self)@.nested,
            old(self)@.expects(event),
        ensures
            final(self)@.wf(),
            (final(self)@, reader_deeds(out.0@)) == old(self)@.after(event),
            out.1 == (if final(self)@.phase == ReaderPhase::Finished {
                Some(false)
            } else if event is Disconnected {
                Some(true)
            } else {
                None
            }),
    {
        if let ReaderEvent::Disconnected { .. } = event {
            self.nested = false;
            self.phase = ReaderPhase::CheckParser;
            let none: Vec<ReaderCommand> = Vec::new();
            assert(reader_deeds(none@) =~= Seq::empty());
            return (none, Some(true));
        }
        let commands = self.step(event);
        if self.phase == ReaderPhase::Finished {
            (commands, Some(false))
        } else {
            (commands, None)
        }
    }

    /// One step of the loop.
    pub fn read_from_pane_pty(&mut self, event: ReaderEvent) -> (commands: Vec<ReaderCommand>)
        requires
            old(self)@.wf(),
            old(self)@.expects(event),
        ensures
            final(self)@.wf(),
            (final(self)@, reader_deeds(commands@)) == old(self)@.after(event),
    {
        if self.nested {
            let (commands, _) = self.run_reader_loop(event);
            return commands;
        }
        let ghost heard = event;
        let mut commands: Vec<ReaderCommand> = Vec::new();
        match event {
            ReaderEvent::Disconnected { pane } => {
                if self.reader_recoveries < MAX_READER_RECOVERIES && pane == PaneLiveness::Alive {
                    self.phase = ReaderPhase::AwaitReader;
                } else {
                    self.phase = ReaderPhase::Finished;
                    commands.push(ReaderCommand::Send(Vec::new()));
                }
            },
            ReaderEvent::NewReader { available } => {
                if available {
                    self.reader_recoveries = self.reader_recoveries + 1;
                    self.nested = true;
                    self.phase = ReaderPhase::CheckParser;
                    commands.push(ReaderCommand::StartReader);
                } else {
                    self.phase = ReaderPhase::Finished;
                    commands.push(ReaderCommand::Send(Vec::new()));
                }
            },
            other => {
                return self.step(other);
            },
        }
        assert(reader_deeds(commands@) =~= old(self)@.after(heard).1);
        commands
    }
}

/// What is done about a pane once its loop has ended.
#[derive(Clone, Copy, Debug, PartialEq, Eq, Structural)]
pub enum AfterExit {
    /// Look for dead windows; the pane may have to stay.
    PruneDeadWindows,
    /// Remove the pane.
    RemovePane,
}

/// What is done about a pane once its loop has ended: the pane's own wish, or
/// else the configured one, decides.
pub fn after_exit(pane_behavior: Option<ExitBehavior>, configured: ExitBehavior) -> (action:
    AfterExit)
    ensures
        action == (if (match pane_behavior {
            Some(b) => b,
            None => configured,
        }) == ExitBehavior::Close {
            AfterExit::RemovePane
        } else {
            AfterExit::PruneDeadWindows
        }),
{
    let behavior = match pane_behavior {
        Some(b) => b,
        None => configured,
    };
    match behavior {
        ExitBehavior::Hold | ExitBehavior::CloseOnCleanExit => AfterExit::PruneDeadWindows,
        ExitBehavior::Close => AfterExit::RemovePane,
    }
}

impl ReaderState {
    /// The state after a run of events.
    pub open spec fn run(self, events: Seq<ReaderEvent>) -> ReaderState
        decreases events.len(),
    {
        if events.len() == 0 {
            self
        } else {
            self.run(events.drop_last()).after(events.last()).0
        }
    }

    /// Every event of the run answers what the loop waited for.
    pub open spec fn can_run(self, events: Seq<ReaderEvent>) -> bool
        decreases events.len(),
    {
        events.len() > 0 ==> {
            &&& self.can_run(events.drop_last())
            &&& self.run(events.drop_last()).expects(events.last())
        }
    }

    /// What the last event of a run causes to be done.
    pub open spec fn last_deeds(self, events: Seq<ReaderEvent>) -> Seq<ReaderDeed> {
        self.run(events.drop_last()).after(events.last()).1
    }

    /// How many steps of a run do `deed`.
    pub open spec fn times(self, events: Seq<ReaderEvent>, deed: ReaderDeed) -> nat
        decreases events.len(),
    {
        if events.len() == 0 {
            0
        } else {
            self.times(events.drop_last(), deed) + if self.last_deeds(events).contains(deed) {
                1nat
            } else {
                0nat
            }
        }
    }

    /// The messages that a run sends to the parser, in order.
    pub open spec fn sent(self, events: Seq<ReaderEvent>) -> Seq<Seq<u8>>
        decreases events.len(),
    {
        if events.len() == 0 {
            Seq::empty()
        } else {
            self.sent(events.drop_last()) + messages(self.last_deeds(events))
        }
    }

    /// Whether a run ends with telling the parser that the output is over.
    pub open spec fn tells_end(self, events: Seq<ReaderEvent>) -> bool {
        events.len() > 0 && self.last_deeds(events).contains(send_eof())
    }
}

/// The messages that a list of deeds sends to the parser, in order.
pub open spec fn messages(deeds: Seq<ReaderDeed>) -> Seq<Seq<u8>>
    decreases deeds.len(),
{
    if deeds.len() == 0 {
        Seq::empty()
    } else {
        match deeds.last() {
            ReaderDeed::Send(data) => messages(deeds.drop_last()).push(data),
            _ => messages(deeds.drop_last()),
        }
    }
}

/// The chunks that arrive in a run of events, in order.
pub open spec fn chunks(events: Seq<ReaderEvent>) -> Seq<Seq<u8>>
    decreases events.len(),
{
    if events.len() == 0 {
        Seq::empty()
    } else {
        match events.last() {
            ReaderEvent::Chunk { data } => if data@.len() > 0 {
                chunks(events.drop_last()).push(data@)
            } else {
                chunks(events.drop_last())
            },
            _ => chunks(events.drop_last()),
        }
    }
}

proof fn lemma_recoveries_are_counted(start: ReaderState, events: Seq<ReaderEvent>)
    requires
        start.wf(),
        start.can_run(events),
    ensures
        start.run(events).wf(),
        start.run(events).platform == start.platform,
        start.run(events).reader_recoveries == start.reader_recoveries + start.times(
            events,
            ReaderDeed::StartReader,
        ),
        start.run(events).parser_recoveries >= start.parser_recoveries + start.times(
            events,
            ReaderDeed::RestartParser,
        ),
        start.run(events).parser_recoveries > MAX_PARSER_RECOVERIES
            ==> start.run(events).parser_recoveries > start.parser_recoveries + start.times(
            events,
            ReaderDeed::RestartParser,
        ) || start.parser_recoveries > MAX_PARSER_RECOVERIES,
    decreases events.len(),
{
    if events.len() > 0 {
        lemma_recoveries_are_counted(start, events.drop_last());
        lemma_deeds_of_a_step(start.run(events.drop_last()), events.last());
    }
}

/// What a step does to the counts shows in its deeds.
proof fn lemma_deeds_of_a_step(state: ReaderState, event: ReaderEvent)
    requires
        state.wf(),
        state.expects(event),
    ensures
        ({
            let (after, deeds) = state.after(event);
            &&& after.wf()
            &&& after.platform == state.platform
            &&& after.reader_recoveries == state.reader_recoveries + (if deeds.contains(
                ReaderDeed::StartReader,
            ) {
                1int
            } else {
                0int
            })
            &&& deeds.contains(ReaderDeed::RestartParser) ==> {
                &&& after.parser_recoveries == state.parser_recoveries + 1
                &&& after.parser_recoveries <= MAX_PARSER_RECOVERIES
            }
            &&& !deeds.contains(ReaderDeed::RestartParser) ==> {
                &&& after.parser_recoveries >= state.parser_recoveries
                &&& after.parser_recoveries > MAX_PARSER_RECOVERIES ==> after.parser_recoveries
                    > state.parser_recoveries
            }
        }),
{
    let (after, deeds) = state.after(event);
    if deeds.len() > 0 {
        assert(deeds.contains(deeds[0]));
    }
    if deeds.len() > 1 {
        assert(deeds.contains(deeds[1]));
    }
}

/// Whatever happens, the parser is replaced at most five times and the pty
/// thread at most three times; off Windows the parser is never replaced.
pub proof fn law_recoveries_are_limited(start: ReaderState, events: Seq<ReaderEvent>)
    requires
        start.wf(),
        start.parser_recoveries == 0,
        start.reader_recoveries == 0,
        start.can_run(events),
    ensures
        start.times(events, ReaderDeed::RestartParser) <= MAX_PARSER_RECOVERIES,
        start.times(events, ReaderDeed::StartReader) <= MAX_READER_RECOVERIES,
        start.platform == Platform::Other ==> start.times(events, ReaderDeed::RestartParser) == 0,
{
    lemma_recoveries_are_counted(start, events);
}

/// What a step sends: nothing, the chunk in hand, or the message that the output is
/// over, and the last only as the loop ends.
proof fn lemma_messages_of_a_step(state: ReaderState, event: ReaderEvent)
    requires
        state.wf(),
        state.expects(event),
    ensures
        ({
            let (after, deeds) = state.after(event);
            let chunk = match event {
                ReaderEvent::Chunk { data } => data@,
                _ => Seq::empty(),
            };
            &&& deeds.contains(send_eof()) ==> {
                &&& after.phase == ReaderPhase::Finished
                &&& messages(deeds) == seq![Seq::<u8>::empty()]
                &&& after.held == state.held
                &&& chunk.len() == 0
            }
            &&& !deeds.contains(send_eof()) ==> {
                ||| messages(deeds) == seq![state.held] && state.held.len() > 0 && after.held.len()
                    == 0 && chunk.len() == 0
                ||| messages(deeds) == Seq::<Seq<u8>>::empty() && after.held == state.held
                    && chunk.len() == 0
                ||| messages(deeds) == Seq::<Seq<u8>>::empty() && after.held == chunk
                    && state.held.len() == 0
            }
        }),
{
    reveal_with_fuel(messages, 3);
    let (after, deeds) = state.after(event);
    if deeds.len() > 0 {
        assert(deeds.contains(deeds[0]));
        assert(deeds.drop_last() =~= deeds.take(deeds.len() - 1));
    }
    if deeds.len() > 1 {
        assert(deeds.contains(deeds[1]));
    }
    if deeds.len() == 1 {
        assert(deeds.drop_last() =~= Seq::empty());
    }
    if deeds.len() == 2 {
        assert(deeds.drop_last().drop_last() =~= Seq::empty());
        assert(deeds.drop_last().last() == deeds[0]);
    }
    match event {
        ReaderEvent::Chunk { data } => {
            if data@.len() == 0 {
                assert(data@ =~= Seq::empty());
            }
        },
        _ => {},
    }
}

/// The chunks that have been sent: all that arrived but the one in hand.
pub open spec fn passed_on(events: Seq<ReaderEvent>, held: Seq<u8>) -> Seq<Seq<u8>> {
    if held.len() > 0 {
        chunks(events).drop_last()
    } else {
        chunks(events)
    }
}

/// Each chunk goes to the parser unchanged, once and in order: after any run, what
/// has been sent is what has arrived, but for the chunk in hand, and after that, if
/// the loop has ended so, the message that the output is over.
pub proof fn law_chunks_are_passed_on(start: ReaderState, events: Seq<ReaderEvent>)
    requires
        start.wf(),
        start.held.len() == 0,
        start.can_run(events),
    ensures
        start.sent(events) == passed_on(events, start.run(events).held) + (if start.tells_end(
            events,
        ) {
            seq![Seq::<u8>::empty()]
        } else {
            Seq::<Seq<u8>>::empty()
        }),
        start.run(events).held.len() > 0 ==> chunks(events).len() > 0 && chunks(events).last()
            == start.run(events).held,
        start.tells_end(events) ==> start.run(events).phase == ReaderPhase::Finished,
    decreases events.len(),
{
    if events.len() == 0 {
        assert(start.sent(events) =~= passed_on(events, start.held) + Seq::<Seq<u8>>::empty());
    } else {
        let before = events.drop_last();
        law_chunks_are_passed_on(start, before);
        lemma_recoveries_are_counted(start, before);
        let state = start.run(before);
        lemma_messages_of_a_step(state, events.last());
        let (after, deeds) = state.after(events.last());
        assert(state.phase != ReaderPhase::Finished);
        assert(!start.tells_end(before));
        assert(start.sent(before) =~= passed_on(before, state.held));
        let all = chunks(events);
        if state.held.len() > 0 {
            assert(chunks(before) =~= chunks(before).drop_last().push(state.held));
        }
        let tail = if deeds.contains(send_eof()) {
            seq![Seq::<u8>::empty()]
        } else {
            Seq::<Seq<u8>>::empty()
        };
        assert(start.sent(events) =~= passed_on(events, after.held) + tail);
    }
}

/// From the very start, what the parser is sent, taken together, is the banner
/// followed by all output that has arrived, but for the chunk in hand.
pub proof fn law_the_parser_gets_banner_and_output(
    platform: Platform,
    banner: Option<Seq<char>>,
    events: Seq<ReaderEvent>,
)
    requires
        first_state(platform).can_run(events),
    ensures
        ({
            let start = first_state(platform);
            let sent = messages(first_deeds(banner)) + start.sent(events);
            let shown = match banner {
                Some(text) => encode_utf8(text),
                None => Seq::empty(),
            };
            joined(sent) + start.run(events).held == shown + joined(chunks(events))
        }),
{
    let start = first_state(platform);
    law_chunks_are_passed_on(start, events);
    let first = messages(first_deeds(banner));
    let held = start.run(events).held;
    let passed = passed_on(events, held);
    let tail = if start.tells_end(events) {
        seq![Seq::<u8>::empty()]
    } else {
        Seq::<Seq<u8>>::empty()
    };
    let shown = match banner {
        Some(text) => encode_utf8(text),
        None => Seq::empty(),
    };
    reveal_with_fuel(messages, 2);
    assert(joined(first) =~= shown) by {
        match banner {
            Some(text) => {
                assert(first_deeds(banner).drop_last() =~= Seq::empty());
                assert(first =~= seq![encode_utf8(text)]);
                lemma_joined_one(encode_utf8(text));
            },
            None => {},
        }
    }
    lemma_joined_one(Seq::<u8>::empty());
    assert(joined(tail) =~= Seq::<u8>::empty());
    lemma_joined_add(passed, tail);
    lemma_joined_add(first, start.sent(events));
    assert(joined(passed) + held =~= joined(chunks(events)));
    let sent = first + start.sent(events);
    assert(joined(sent) + held =~= shown + (joined(passed) + held));
}

/// The parser is told that the output is over whenever the loop ends because
/// the pty is at its end, could not be read or cannot be reopened, or because
/// the parser died too often; so the pane is cleaned up and does not linger.
pub proof fn law_a_pane_does_not_die_silently(reader: ReaderState, event: ReaderEvent)
    requires
        reader.wf(),
        reader.expects(event),
        reader.after(event).0.phase == ReaderPhase::Finished,
        match event {
            ReaderEvent::Chunk { data } => true,
            ReaderEvent::ReadError => true,
            ReaderEvent::Disconnected { pane } => true,
            ReaderEvent::NewReader { available } => true,
            ReaderEvent::ParserStatus { needs_recovery, pane_exists } => reader.platform
                == Platform::Windows && reader.parser_recoveries == MAX_PARSER_RECOVERIES,
            _ => false,
        },
    ensures
        reader.after(event).1 == seq![send_eof()],
{
}

/// No parser is started for a pane that is gone: the loop ends instead.
pub proof fn law_no_recovery_for_a_missing_pane(reader: ReaderState)
    requires
        reader.wf(),
        reader.phase == ReaderPhase::CheckParser || reader.phase == ReaderPhase::CheckBeforeSend,
    ensures
        ({
            let (after, deeds) = reader.after(
                ReaderEvent::ParserStatus { needs_recovery: true, pane_exists: false },
            );
            &&& after.phase == ReaderPhase::Finished
            &&& !deeds.contains(ReaderDeed::RestartParser)
        }),
{
}

/// A replacement pty thread that goes away never ends the loop by itself: a
/// further replacement is considered first.
pub proof fn law_a_lost_replacement_is_not_the_end(reader: ReaderState, pane: PaneLiveness)
    requires
        reader.wf(),
        reader.nested,
        reader.phase == ReaderPhase::Receive,
    ensures
        ({
            let (after, deeds) = reader.after(ReaderEvent::Disconnected { pane });
            &&& after.phase == ReaderPhase::CheckParser
            &&& !after.nested
            &&& deeds.len() == 0
        }),
{
}

/// A chunk that arrived is sent to the parser before anything else is received,
/// unless the loop ends.
pub proof fn law_each_chunk_is_offered(reader: ReaderState, data: Vec<u8>, status: ReaderEvent)
    requires
        reader.wf(),
        reader.phase == ReaderPhase::Receive,
        data@.len() > 0,
        status is ParserStatus,
    ensures
        ({
            let held = reader.after(ReaderEvent::Chunk { data }).0;
            let (next, deeds) = held.after(status);
            &&& held.expects(status)
            &&& next.phase is Send ==> deeds.last() == ReaderDeed::Send(data@)
            &&& next.phase is Send || next.phase == ReaderPhase::Finished
        }),
{
}

} // verus!
