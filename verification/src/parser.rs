//! Batching of parsed terminal output.
//!
//! A pane's output arrives in chunks. Each chunk is parsed into actions, and
//! the actions are handed to the pane in batches: a program that asks for
//! synchronized output has its actions held back until it releases them, and
//! otherwise a short wait after each chunk lets the rest of a frame catch up.
//!
//! `BufferedParser` decides when a batch goes out and how long to wait for
//! more, and puts the text in each batch together; receiving and parsing the chunks
//! is left to the caller.
use crate::actions::{all_coalesced, coalesce, coalesced, doings, Action, Doing};
use vstd::prelude::*;

verus! {

/// A private mode of the terminal, as far as it matters here.
#[derive(Clone, Copy, Debug, PartialEq, Eq, Structural)]
pub enum DecPrivateMode {
    /// Output is held back while this mode is on.
    SynchronizedOutput,
    Other,
}

/// A request about the terminal itself, as far as it matters here.
#[derive(Clone, Copy, Debug, PartialEq, Eq, Structural)]
pub enum DeviceRequest {
    SoftReset,
    Other,
}

/// The escape sequence that an action was parsed from.
#[derive(Clone, Copy, Debug, PartialEq, Eq, Structural)]
pub enum EscapeSequence {
    SetDecPrivateMode(DecPrivateMode),
    ResetDecPrivateMode(DecPrivateMode),
    Device(DeviceRequest),
    /// Text, control characters and all other sequences.
    Other,
}

/// What an action means for the batching.
#[derive(Clone, Copy, Debug, PartialEq, Eq, Structural)]
pub enum ActionKind {
    /// The program turned synchronized output on.
    BeginSync,
    /// The program turned synchronized output off.
    EndSync,
    /// The program asked for a soft reset of the terminal.
    SoftReset,
    /// Anything else.
    Other,
}

impl EscapeSequence {
    /// What the sequence means for the batching: setting and resetting the mode for
    /// synchronized output begin and end it, and a soft reset is told apart.
    pub open spec fn meaning(self) -> ActionKind {
        match self {
            EscapeSequence::SetDecPrivateMode(
                DecPrivateMode::SynchronizedOutput,
            ) => ActionKind::BeginSync,
            EscapeSequence::ResetDecPrivateMode(
                DecPrivateMode::SynchronizedOutput,
            ) => ActionKind::EndSync,
            EscapeSequence::Device(DeviceRequest::SoftReset) => ActionKind::SoftReset,
            _ => ActionKind::Other,
        }
    }

    /// What the sequence means for the batching.
    pub fn kind(self) -> (kind: ActionKind)
        ensures
            kind == self.meaning(),
    {
        match self {
            EscapeSequence::SetDecPrivateMode(mode) => match mode {
                DecPrivateMode::SynchronizedOutput => ActionKind::BeginSync,
                DecPrivateMode::Other => ActionKind::Other,
            },
            EscapeSequence::ResetDecPrivateMode(mode) => match mode {
                DecPrivateMode::SynchronizedOutput => ActionKind::EndSync,
                DecPrivateMode::Other => ActionKind::Other,
            },
            EscapeSequence::Device(request) => match request {
                DeviceRequest::SoftReset => ActionKind::SoftReset,
                DeviceRequest::Other => ActionKind::Other,
            },
            EscapeSequence::Other => ActionKind::Other,
        }
    }
}

/// One action as it left the escape sequence parser.
pub struct ParsedAction<A> {
    pub sequence: EscapeSequence,
    pub action: A,
}

/// The settings that the batching consults.
#[derive(Clone, Copy, Debug)]
pub struct CoalesceConfig {
    /// How long to wait for the rest of a frame, in milliseconds.
    pub delay_ms: u64,
    /// No further chunk is waited for once this many bytes are buffered.
    pub buffer_size: usize,
}

/// What the wait for a chunk came to.
pub enum Received<A> {
    /// A chunk of `size` bytes, parsed into `actions`; an empty chunk marks
    /// the end of the output.
    Chunk { size: usize, actions: Vec<ParsedAction<A>> },
    /// The sending side is gone.
    Disconnected,
    /// Nothing arrived in the time allowed.
    TimedOut,
}

/// What to do once the batches have been handed over.
#[derive(Clone, Copy, Debug, PartialEq, Eq, Structural)]
pub enum NextWait {
    /// Wait for the next chunk for as long as it takes.
    Forever,
    /// Wait for the next chunk for so many milliseconds.
    AtMost(u128),
    /// The output is over.
    Finished,
}

#[derive(Clone, Copy, Debug, PartialEq, Eq, Structural)]
pub enum ParserPhase {
    /// Between frames.
    Idle,
    /// Waiting for the rest of a frame.
    Coalescing,
    /// The output is over.
    Finished,
}

/// The state of the batching.
#[verifier::ext_equal]
pub struct ParserState<A> {
    /// Actions that have not gone out yet, in order. Their text is put together as
    /// they go out.
    pub pending: Seq<A>,
    /// Whether the program holds its output back.
    pub hold: bool,
    /// Bytes counted against the buffer size.
    pub size: usize,
    /// The wait that the next frame starts with, in milliseconds.
    pub delay: u64,
    /// When the current frame is cut off, in milliseconds.
    pub deadline: Option<u128>,
    /// The buffer size that was in force when the current frame began.
    pub limit: usize,
    pub phase: ParserPhase,
}

/// The outcome of one step: the new state, the batches that go out, in order,
/// and what to wait for next.
#[verifier::ext_equal]
pub struct ParserStep<A> {
    pub state: ParserState<A>,
    pub batches: Seq<Seq<A>>,
    pub wait: NextWait,
}

pub open spec fn saturated(n: int) -> usize {
    if n > usize::MAX {
        usize::MAX
    } else {
        n as usize
    }
}

/// The actions of a parsed chunk, without the sequences they came from.
pub open spec fn actions_of<A>(parsed: Seq<ParsedAction<A>>) -> Seq<A> {
    parsed.map_values(|p: ParsedAction<A>| p.action)
}

/// All batches, one after another.
pub open spec fn joined<A>(batches: Seq<Seq<A>>) -> Seq<A>
    decreases batches.len(),
{
    if batches.len() == 0 {
        Seq::empty()
    } else {
        joined(batches.drop_last()) + batches.last()
    }
}

/// The whole of `pending` as a batch of its own, unless there is nothing in it.
pub open spec fn as_batches<A>(pending: Seq<A>) -> Seq<Seq<A>> {
    if pending.len() == 0 {
        Seq::empty()
    } else {
        seq![pending]
    }
}

impl<A> ParserState<A> {
    pub open spec fn wf(self) -> bool {
        match self.phase {
            ParserPhase::Idle => self.deadline is None && (self.pending.len() == 0 || self.hold),
            ParserPhase::Coalescing => self.deadline is Some && self.pending.len() > 0
                && !self.hold,
            ParserPhase::Finished => self.pending.len() == 0,
        }
    }

    /// Everything pending goes out: the state that is left behind.
    pub open spec fn drained(self) -> ParserState<A> {
        if self.pending.len() == 0 {
            self
        } else {
            ParserState { pending: Seq::empty(), size: 0, ..self }
        }
    }

    /// One action of a chunk that arrived between frames. Turning synchronized
    /// output on sends what came before; turning it off, or a soft reset, sends
    /// everything up to and including that action.
    pub open spec fn take_in(self, parsed: ParsedAction<A>) -> (ParserState<A>, Seq<Seq<A>>) {
        match parsed.sequence.meaning() {
            ActionKind::BeginSync => {
                let before = self.drained();
                (
                    ParserState {
                        hold: true,
                        pending: before.pending.push(parsed.action),
                        ..before
                    },
                    as_batches(self.pending),
                )
            },
            ActionKind::EndSync | ActionKind::SoftReset => {
                let with = ParserState {
                    hold: false,
                    pending: self.pending.push(parsed.action),
                    ..self
                };
                (with.drained(), seq![with.pending])
            },
            ActionKind::Other => (
                ParserState { pending: self.pending.push(parsed.action), ..self },
                Seq::empty(),
            ),
        }
    }

    /// All actions of a chunk that arrived between frames, in order.
    pub open spec fn take_in_all(self, parsed: Seq<ParsedAction<A>>) -> (
        ParserState<A>,
        Seq<Seq<A>>,
    )
        decreases parsed.len(),
    {
        if parsed.len() == 0 {
            (self, Seq::empty())
        } else {
            let (before, sent) = self.take_in_all(parsed.drop_last());
            let (after, more) = before.take_in(parsed.last());
            (after, sent + more)
        }
    }

    /// The frame is complete: it goes out, and the next chunk may take as long
    /// as it takes.
    pub open spec fn end_frame(self, config: CoalesceConfig) -> ParserStep<A> {
        ParserStep {
            state: ParserState {
                pending: Seq::empty(),
                size: 0,
                delay: config.delay_ms,
                deadline: None,
                phase: ParserPhase::Idle,
                ..self
            },
            batches: seq![self.pending],
            wait: NextWait::Forever,
        }
    }

    /// Wait for more of the frame if there is both room and time for it.
    pub open spec fn go_on(self, config: CoalesceConfig, now: u64) -> ParserStep<A> {
        if self.size >= self.limit {
            self.end_frame(config)
        } else {
            match self.deadline {
                None => ParserStep {
                    state: ParserState {
                        deadline: Some((now + self.delay) as u128),
                        phase: ParserPhase::Coalescing,
                        ..self
                    },
                    batches: Seq::empty(),
                    wait: NextWait::AtMost(self.delay as u128),
                },
                Some(at) => if at >= now {
                    ParserStep {
                        state: ParserState { phase: ParserPhase::Coalescing, ..self },
                        batches: Seq::empty(),
                        wait: NextWait::AtMost((at - now) as u128),
                    }
                } else {
                    self.end_frame(config)
                },
            }
        }
    }

    /// The end of the output: whatever is pending goes out.
    pub open spec fn finish(self) -> ParserStep<A> {
        ParserStep {
            state: ParserState { pending: Seq::empty(), phase: ParserPhase::Finished, ..self },
            batches: as_batches(self.pending),
            wait: NextWait::Finished,
        }
    }

    /// A chunk of `size` bytes.
    pub open spec fn on_chunk(
        self,
        size: usize,
        parsed: Seq<ParsedAction<A>>,
        config: CoalesceConfig,
        now: u64,
    ) -> ParserStep<A> {
        if self.phase == ParserPhase::Coalescing {
            ParserState {
                pending: self.pending + actions_of(parsed),
                size: saturated(self.size + size),
                ..self
            }.go_on(config, now)
        } else {
            let (fed, sent) = self.take_in_all(parsed);
            let counted = ParserState { size: saturated(fed.size + size), ..fed };
            if counted.pending.len() > 0 && !counted.hold {
                let step = ParserState { limit: config.buffer_size, ..counted }.go_on(config, now);
                ParserStep { batches: sent + step.batches, ..step }
            } else {
                ParserStep {
                    state: ParserState { delay: config.delay_ms, ..counted },
                    batches: sent,
                    wait: NextWait::Forever,
                }
            }
        }
    }

    pub open spec fn on_received(
        self,
        received: Received<A>,
        config: CoalesceConfig,
        now: u64,
    ) -> ParserStep<A> {
        match received {
            Received::Chunk { size, actions } => if size == 0 {
                self.finish()
            } else {
                self.on_chunk(size, actions@, config, now)
            },
            Received::Disconnected => self.finish(),
            Received::TimedOut => self.end_frame(config),
        }
    }

    /// Whether `received` can be the answer to the wait that was asked for: only
    /// a wait for the rest of a frame runs out of time.
    pub open spec fn expects(self, received: Received<A>) -> bool {
        match self.phase {
            ParserPhase::Idle => !(received is TimedOut),
            ParserPhase::Coalescing => true,
            ParserPhase::Finished => false,
        }
    }
}

/// Batches parsed output for one pane.
pub struct BufferedParser<A> {
    pending: Vec<A>,
    hold: bool,
    size: usize,
    delay: u64,
    deadline: Option<u128>,
    limit: usize,
    phase: ParserPhase,
}

impl<A> View for BufferedParser<A> {
    type V = ParserState<A>;

    closed spec fn view(&self) -> ParserState<A> {
        ParserState {
            pending: self.pending@,
            hold: self.hold,
            size: self.size,
            delay: self.delay,
            deadline: self.deadline,
            limit: self.limit,
            phase: self.phase,
        }
    }
}

/// The contents of a list of batches.
pub open spec fn batches_view<A>(batches: Seq<Vec<A>>) -> Seq<Seq<A>> {
    batches.map_values(|b: Vec<A>| b@)
}

impl<A> BufferedParser<A> {
    pub fn new(config: CoalesceConfig) -> (parser: Self)
        ensures
            parser@.wf(),
            parser@ == (ParserState::<A> {
                pending: Seq::empty(),
                hold: false,
                size: 0,
                delay: config.delay_ms,
                deadline: None,
                limit: config.buffer_size,
                phase: ParserPhase::Idle,
            }),
    {
        BufferedParser {
            pending: Vec::new(),
            hold: false,
            size: 0,
            delay: config.delay_ms,
            deadline: None,
            limit: config.buffer_size,
            phase: ParserPhase::Idle,
        }
    }

    /// Moves everything pending into a batch of its own.
    fn flush(&mut self, batches: &mut Vec<Vec<A>>)
        ensures
            final(self)@ == (ParserState { pending: Seq::empty(), ..old(self)@ }),
            batches_view(final(batches)@) == batches_view(old(batches)@).push(old(self)@.pending),
    {
        let mut batch: Vec<A> = Vec::new();
        std::mem::swap(&mut batch, &mut self.pending);
        batches.push(batch);
        assert(batches_view(batches@) =~= batches_view(old(batches)@).push(old(self)@.pending));
    }

    fn take_in(&mut self, parsed: ParsedAction<A>, batches: &mut Vec<Vec<A>>)
        ensures
            final(self)@ == old(self)@.take_in(parsed).0,
            batches_view(final(batches)@) == batches_view(old(batches)@) + old(self)@.take_in(
                parsed,
            ).1,
    {
        let mut release = false;
        match parsed.sequence.kind() {
            ActionKind::BeginSync => {
                self.hold = true;
                if self.pending.len() > 0 {
                    self.flush(batches);
                    self.size = 0;
                }
            },
            ActionKind::EndSync | ActionKind::SoftReset => {
                self.hold = false;
                release = true;
            },
            ActionKind::Other => {},
        }
        self.pending.push(parsed.action);
        if release {
            self.flush(batches);
            self.size = 0;
        }
        assert(batches_view(batches@) =~= batches_view(old(batches)@) + old(self)@.take_in(
            parsed,
        ).1);
    }

    fn end_frame(&mut self, config: CoalesceConfig, batches: &mut Vec<Vec<A>>) -> (wait: NextWait)
        ensures
            ({
                let step = old(self)@.end_frame(config);
                &&& final(self)@ == step.state
                &&& batches_view(final(batches)@) == batches_view(old(batches)@) + step.batches
                &&& wait == step.wait
            }),
    {
        self.flush(batches);
        self.size = 0;
        self.delay = config.delay_ms;
        self.deadline = None;
        self.phase = ParserPhase::Idle;
        assert(batches_view(batches@) =~= batches_view(old(batches)@) + seq![old(self)@.pending]);
        NextWait::Forever
    }

    fn go_on(&mut self, config: CoalesceConfig, now: u64, batches: &mut Vec<Vec<A>>) -> (wait:
        NextWait)
        ensures
            ({
                let step = old(self)@.go_on(config, now);
                &&& final(self)@ == step.state
                &&& batches_view(final(batches)@) == batches_view(old(batches)@) + step.batches
                &&& wait == step.wait
            }),
    {
        assert(batches_view(batches@) =~= batches_view(batches@) + Seq::<Seq<A>>::empty());
        if self.size >= self.limit {
            return self.end_frame(config, batches);
        }
        match self.deadline {
            None => {
                self.deadline = Some(now as u128 + self.delay as u128);
                self.phase = ParserPhase::Coalescing;
                NextWait::AtMost(self.delay as u128)
            },
            Some(at) => {
                if at >= now as u128 {
                    self.phase = ParserPhase::Coalescing;
                    NextWait::AtMost(at - now as u128)
                } else {
                    self.end_frame(config, batches)
                }
            },
        }
    }

    fn finish(&mut self, batches: &mut Vec<Vec<A>>) -> (wait: NextWait)
        ensures
            ({
                let step = old(self)@.finish();
                &&& final(self)@ == step.state
                &&& batches_view(final(batches)@) == batches_view(old(batches)@) + step.batches
                &&& wait == step.wait
            }),
    {
        if self.pending.len() > 0 {
            self.flush(batches);
        }
        self.phase = ParserPhase::Finished;
        assert(batches_view(batches@) =~= batches_view(old(batches)@) + as_batches(
            old(self)@.pending,
        ));
        assert(self@ =~= old(self)@.finish().state);
        NextWait::Finished
    }

    fn on_chunk(
        &mut self,
        size: usize,
        actions: Vec<ParsedAction<A>>,
        config: CoalesceConfig,
        now: u64,
        batches: &mut Vec<Vec<A>>,
    ) -> (wait: NextWait)
        requires
            batches_view(old(batches)@) == Seq::<Seq<A>>::empty(),
        ensures
            ({
                let step = old(self)@.on_chunk(size, actions@, config, now);
                &&& final(self)@ == step.state
                &&& batches_view(final(batches)@) == step.batches
                &&& wait == step.wait
            }),
    {
        let ghost start = self@;
        let coalescing = self.phase == ParserPhase::Coalescing;
        let ghost all = actions@;
        assert(all.take(0) =~= Seq::empty());
        assert(start.pending + actions_of(all.take(0)) =~= start.pending);
        for parsed in it: actions
            invariant
                all == it.seq(),
                coalescing ==> self@ == (ParserState {
                    pending: start.pending + actions_of(all.take(it.index())),
                    ..start
                }) && batches_view(batches@) == Seq::<Seq<A>>::empty(),
                !coalescing ==> self@ == start.take_in_all(all.take(it.index())).0 && batches_view(
                    batches@,
                ) == start.take_in_all(all.take(it.index())).1,
        {
            proof {
                let i = it.index();
                assert(all.take(i + 1).drop_last() =~= all.take(i));
                assert(all.take(i + 1).last() == parsed);
                assert(actions_of(all.take(i + 1)) =~= actions_of(all.take(i)).push(parsed.action));
            }
            if coalescing {
                self.pending.push(parsed.action);
                assert(self@.pending =~= start.pending + actions_of(all.take(it.index() + 1)));
            } else {
                self.take_in(parsed, batches);
            }
        }
        assert(all.take(all.len() as int) =~= all);
        self.size = self.size.saturating_add(size);
        if coalescing {
            self.go_on(config, now, batches)
        } else if self.pending.len() > 0 && !self.hold {
            self.limit = config.buffer_size;
            self.go_on(config, now, batches)
        } else {
            self.delay = config.delay_ms;
            NextWait::Forever
        }
    }

    /// Takes in what the last wait came to. Returns the batches that go out, in order
    /// and action by action, and what to wait for next.
    fn step(
        &mut self,
        received: Received<A>,
        config: CoalesceConfig,
        now: u64,
    ) -> (out: (Vec<Vec<A>>, NextWait))
        requires
            old(self)@.wf(),
            old(self)@.expects(received),
        ensures
            final(self)@.wf(),
            ({
                let step = old(self)@.on_received(received, config, now);
                &&& final(self)@ == step.state
                &&& batches_view(out.0@) == step.batches
                &&& out.1 == step.wait
            }),
    {
        let ghost before = self@;
        let mut batches: Vec<Vec<A>> = Vec::new();
        assert(batches_view(batches@) =~= Seq::<Seq<A>>::empty());
        let wait = match received {
            Received::Chunk { size, actions } => {
                if size == 0 {
                    self.finish(&mut batches)
                } else {
                    self.on_chunk(size, actions, config, now, &mut batches)
                }
            },
            Received::Disconnected => self.finish(&mut batches),
            Received::TimedOut => self.end_frame(config, &mut batches),
        };
        proof {
            lemma_step_keeps_wf(before, received, config, now);
            assert(batches_view(batches@) =~= before.on_received(received, config, now).batches);
        }
        (batches, wait)
    }
}

/// The batches of a step as they go to the terminal, with the text in each put
/// together.
pub open spec fn shown<A>(batches: Seq<Seq<Action<A>>>) -> Seq<Seq<Doing<A>>> {
    all_coalesced(batches.map_values(|b: Seq<Action<A>>| doings(b)))
}

/// The contents of the batches that are handed to a pane.
pub open spec fn handed<A>(batches: Seq<Vec<Action<A>>>) -> Seq<Seq<Doing<A>>> {
    batches.map_values(|b: Vec<Action<A>>| doings(b@))
}

impl<A> BufferedParser<Action<A>> {
    /// Takes in what the last wait came to. Returns the batches to hand to the
    /// pane, in order, and what to wait for next. In each batch the characters that
    /// follow one another are put together.
    pub fn parse_buffered_data(
        &mut self,
        received: Received<Action<A>>,
        config: CoalesceConfig,
        now: u64,
    ) -> (out: (Vec<Vec<Action<A>>>, NextWait))
        requires
            old(self)@.wf(),
            old(self)@.expects(received),
        ensures
            final(self)@.wf(),
            ({
                let step = old(self)@.on_received(received, config, now);
                &&& final(self)@ == step.state
                &&& handed(out.0@) == shown(step.batches)
                &&& out.1 == step.wait
            }),
    {
        let ghost before = self@;
        let (raw, wait) = self.step(received, config, now);
        let ghost all = raw@;
        let mut batches: Vec<Vec<Action<A>>> = Vec::new();
        for batch in it: raw
            invariant
                all == it.seq(),
                handed(batches@) == shown(batches_view(all)).take(it.index()),
        {
            let ghost given = batch@;
            let list = coalesce(batch);
            proof {
                let i = it.index();
                assert(batches_view(all)[i] == given);
                assert(shown(batches_view(all))[i] == coalesced(doings(given)));
                assert(shown(batches_view(all)).take(i + 1) =~= shown(batches_view(all)).take(
                    i,
                ).push(coalesced(doings(given))));
            }
            let ghost so_far = handed(batches@);
            batches.push(list);
            assert(handed(batches@) =~= so_far.push(doings(list@)));
        }
        proof {
            assert(shown(batches_view(all)).take(all.len() as int) =~= shown(batches_view(all)));
        }
        (batches, wait)
    }
}

/// Feeding actions in never touches the deadline or the phase.
proof fn lemma_take_in_all_frame<A>(state: ParserState<A>, parsed: Seq<ParsedAction<A>>)
    ensures
        ({
            let fed = state.take_in_all(parsed).0;
            &&& fed.deadline == state.deadline
            &&& fed.phase == state.phase
            &&& fed.delay == state.delay
            &&& fed.limit == state.limit
        }),
    decreases parsed.len(),
{
    if parsed.len() > 0 {
        lemma_take_in_all_frame(state, parsed.drop_last());
    }
}

/// Every step from a well-formed state leads to a well-formed state.
proof fn lemma_step_keeps_wf<A>(
    state: ParserState<A>,
    received: Received<A>,
    config: CoalesceConfig,
    now: u64,
)
    requires
        state.wf(),
        state.expects(received),
    ensures
        state.on_received(received, config, now).state.wf(),
{
    match received {
        Received::Chunk { size, actions } => {
            lemma_take_in_all_frame(state, actions@);
        },
        _ => {},
    }
}

/// The actions that `received` brings along.
pub open spec fn brought<A>(received: Received<A>) -> Seq<A> {
    match received {
        Received::Chunk { size, actions } => if size == 0 {
            Seq::empty()
        } else {
            actions_of(actions@)
        },
        _ => Seq::empty(),
    }
}

pub proof fn lemma_joined_add<A>(a: Seq<Seq<A>>, b: Seq<Seq<A>>)
    ensures
        joined(a + b) == joined(a) + joined(b),
    decreases b.len(),
{
    if b.len() == 0 {
        assert(a + b =~= a);
        assert(joined(a) + joined(b) =~= joined(a));
    } else {
        assert((a + b).drop_last() =~= a + b.drop_last());
        lemma_joined_add(a, b.drop_last());
        assert(joined(a + b) =~= joined(a) + joined(b));
    }
}

pub proof fn lemma_joined_one<A>(batch: Seq<A>)
    ensures
        joined(seq![batch]) == batch,
{
    reveal_with_fuel(joined, 2);
    assert(seq![batch].drop_last() =~= Seq::<Seq<A>>::empty());
    assert(joined(seq![batch]) =~= batch);
}

proof fn lemma_take_in_keeps_all<A>(state: ParserState<A>, parsed: Seq<ParsedAction<A>>)
    ensures
        ({
            let (fed, sent) = state.take_in_all(parsed);
            &&& joined(sent) + fed.pending == state.pending + actions_of(parsed)
            &&& forall|i: int| 0 <= i < sent.len() ==> (#[trigger] sent[i]).len() > 0
        }),
    decreases parsed.len(),
{
    if parsed.len() == 0 {
        assert(joined(Seq::<Seq<A>>::empty()) + state.pending =~= state.pending + actions_of(
            parsed,
        ));
    } else {
        let last = parsed.last();
        lemma_take_in_keeps_all(state, parsed.drop_last());
        let (mid, sent) = state.take_in_all(parsed.drop_last());
        let (fed, more) = mid.take_in(last);
        lemma_joined_add(sent, more);
        assert(actions_of(parsed) =~= actions_of(parsed.drop_last()).push(last.action));
        if more.len() > 0 {
            lemma_joined_one(more[0]);
            assert(more =~= seq![more[0]]);
        }
        assert(joined(more) + fed.pending =~= mid.pending.push(last.action));
        assert(joined(sent + more) + fed.pending =~= joined(sent) + (joined(more) + fed.pending));
        assert(joined(sent) + mid.pending.push(last.action) =~= (joined(sent) + mid.pending).push(
            last.action,
        ));
        assert(state.pending + actions_of(parsed) =~= (state.pending + actions_of(
            parsed.drop_last(),
        )).push(last.action));
    }
}

proof fn lemma_go_on_keeps_all<A>(state: ParserState<A>, config: CoalesceConfig, now: u64)
    ensures
        ({
            let step = state.go_on(config, now);
            joined(step.batches) + step.state.pending == state.pending
        }),
{
    let step = state.go_on(config, now);
    lemma_joined_one(state.pending);
    assert(joined(Seq::<Seq<A>>::empty()) + state.pending =~= state.pending);
    assert(state.pending + Seq::<A>::empty() =~= state.pending);
}

/// No action is lost, repeated or moved past another: what goes out in a step,
/// followed by what stays pending, is what was pending followed by what came in.
pub proof fn law_actions_keep_their_order<A>(
    state: ParserState<A>,
    received: Received<A>,
    config: CoalesceConfig,
    now: u64,
)
    requires
        state.wf(),
        state.expects(received),
    ensures
        ({
            let step = state.on_received(received, config, now);
            joined(step.batches) + step.state.pending == state.pending + brought(received)
        }),
{
    let step = state.on_received(received, config, now);
    lemma_joined_one(state.pending);
    assert(joined(Seq::<Seq<A>>::empty()) =~= Seq::<A>::empty());
    assert(state.pending + Seq::<A>::empty() =~= state.pending);
    match received {
        Received::Chunk { size, actions } => {
            if size != 0 {
                if state.phase == ParserPhase::Coalescing {
                    let fed = ParserState {
                        pending: state.pending + actions_of(actions@),
                        size: saturated(state.size + size),
                        ..state
                    };
                    lemma_go_on_keeps_all(fed, config, now);
                } else {
                    lemma_take_in_keeps_all(state, actions@);
                    let (fed, sent) = state.take_in_all(actions@);
                    let counted = ParserState {
                        size: saturated(fed.size + size),
                        limit: config.buffer_size,
                        ..fed
                    };
                    lemma_go_on_keeps_all(counted, config, now);
                    let rest = counted.go_on(config, now);
                    lemma_joined_add(sent, rest.batches);
                    assert(joined(sent + rest.batches) + rest.state.pending =~= joined(sent) + (
                    joined(rest.batches) + rest.state.pending));
                }
            } else {
                assert(joined(step.batches) + step.state.pending =~= state.pending);
            }
        },
        _ => {
            assert(joined(step.batches) + step.state.pending =~= state.pending);
        },
    }
}

/// Output is never left behind in front of an open-ended wait, unless the
/// program itself holds it back.
pub proof fn law_output_is_shown_before_an_open_ended_wait<A>(
    state: ParserState<A>,
    received: Received<A>,
    config: CoalesceConfig,
    now: u64,
)
    requires
        state.wf(),
        state.expects(received),
        state.on_received(received, config, now).wait == NextWait::Forever,
    ensures
        ({
            let after = state.on_received(received, config, now).state;
            after.pending.len() == 0 || after.hold
        }),
{
    lemma_step_keeps_wf(state, received, config, now);
    match received {
        Received::Chunk { size, actions } => {
            lemma_take_in_all_frame(state, actions@);
        },
        _ => {},
    }
}

/// The output ends with nothing left behind, and it ends exactly when the
/// sending side is gone or an empty chunk arrives.
pub proof fn law_the_end_leaves_nothing_behind<A>(
    state: ParserState<A>,
    received: Received<A>,
    config: CoalesceConfig,
    now: u64,
)
    requires
        state.wf(),
        state.expects(received),
    ensures
        ({
            let step = state.on_received(received, config, now);
            let over = match received {
                Received::Chunk { size, actions } => size == 0,
                Received::Disconnected => true,
                Received::TimedOut => false,
            };
            &&& (step.wait == NextWait::Finished <==> over)
            &&& (step.state.phase == ParserPhase::Finished <==> over)
            &&& over ==> step.state.pending.len() == 0
        }),
{
    match received {
        Received::Chunk { size, actions } => {
            lemma_take_in_all_frame(state, actions@);
        },
        _ => {},
    }
}

/// Every batch that goes out holds at least one action.
pub proof fn law_no_batch_is_empty<A>(
    state: ParserState<A>,
    received: Received<A>,
    config: CoalesceConfig,
    now: u64,
)
    requires
        state.wf(),
        state.expects(received),
    ensures
        forall|i: int|
            0 <= i < state.on_received(received, config, now).batches.len() ==> (
            #[trigger] state.on_received(received, config, now).batches[i]).len() > 0,
{
    match received {
        Received::Chunk { size, actions } => {
            lemma_take_in_keeps_all(state, actions@);
        },
        _ => {},
    }
}

/// A frame is cut off at a time that is fixed when it begins: so long after the
/// chunk that began it as the delay says, however many chunks follow.
pub proof fn law_a_frame_ends_in_time<A>(
    state: ParserState<A>,
    received: Received<A>,
    config: CoalesceConfig,
    now: u64,
)
    requires
        state.wf(),
        state.expects(received),
        state.on_received(received, config, now).state.phase == ParserPhase::Coalescing,
    ensures
        ({
            let step = state.on_received(received, config, now);
            let until = if state.phase == ParserPhase::Coalescing {
                state.deadline
            } else {
                Some((now + state.delay) as u128)
            };
            &&& step.state.deadline == until
            &&& until is Some
            &&& until->0 >= now
            &&& step.wait == NextWait::AtMost((until->0 - now) as u128)
        }),
{
    match received {
        Received::Chunk { size, actions } => {
            lemma_take_in_all_frame(state, actions@);
        },
        _ => {},
    }
}

/// While the program holds its output back, a chunk that neither releases the
/// output nor asks again to hold it sends nothing.
pub proof fn law_held_output_stays_put<A>(
    state: ParserState<A>,
    size: usize,
    actions: Vec<ParsedAction<A>>,
    config: CoalesceConfig,
    now: u64,
)
    requires
        state.wf(),
        state.hold,
        state.phase == ParserPhase::Idle,
        size > 0,
        forall|i: int| 0 <= i < actions@.len() ==> (#[trigger] actions@[i]).sequence.meaning()
            == ActionKind::Other,
    ensures
        ({
            let step = state.on_received(Received::Chunk { size, actions }, config, now);
            &&& step.batches.len() == 0
            &&& step.state.hold
            &&& step.state.pending == state.pending + actions_of(actions@)
        }),
{
    lemma_plain_actions_pile_up(state, actions@);
}

proof fn lemma_plain_actions_pile_up<A>(state: ParserState<A>, parsed: Seq<ParsedAction<A>>)
    requires
        forall|i: int| 0 <= i < parsed.len() ==> (#[trigger] parsed[i]).sequence.meaning()
            == ActionKind::Other,
    ensures
        state.take_in_all(parsed).0 == (ParserState {
            pending: state.pending + actions_of(parsed),
            ..state
        }),
        state.take_in_all(parsed).1 == Seq::<Seq<A>>::empty(),
    decreases parsed.len(),
{
    if parsed.len() == 0 {
        assert(state.pending + actions_of(parsed) =~= state.pending);
    } else {
        lemma_plain_actions_pile_up(state, parsed.drop_last());
        assert(state.pending + actions_of(parsed) =~= (state.pending + actions_of(
            parsed.drop_last(),
        )).push(parsed.last().action));
    }
}

/// One wait of a run: what it came to, and the settings and the time at that
/// moment.
pub struct Moment<A> {
    pub received: Received<A>,
    pub config: CoalesceConfig,
    pub now: u64,
}

impl<A> ParserState<A> {
    /// The state after a run of waits, and all the batches it sent.
    pub open spec fn run(self, moments: Seq<Moment<A>>) -> (ParserState<A>, Seq<Seq<A>>)
        decreases moments.len(),
    {
        if moments.len() == 0 {
            (self, Seq::empty())
        } else {
            let (before, sent) = self.run(moments.drop_last());
            let last = moments.last();
            let step = before.on_received(last.received, last.config, last.now);
            (step.state, sent + step.batches)
        }
    }

    /// Every wait of the run is one that the parser asked for.
    pub open spec fn can_run(self, moments: Seq<Moment<A>>) -> bool
        decreases moments.len(),
    {
        moments.len() > 0 ==> {
            &&& self.can_run(moments.drop_last())
            &&& self.run(moments.drop_last()).0.expects(moments.last().received)
        }
    }
}

/// Everything that a run of waits brings along, in order.
pub open spec fn all_brought<A>(moments: Seq<Moment<A>>) -> Seq<A>
    decreases moments.len(),
{
    if moments.len() == 0 {
        Seq::empty()
    } else {
        all_brought(moments.drop_last()) + brought(moments.last().received)
    }
}

/// Over a whole run the pane is handed exactly the actions that were parsed, in
/// the order in which they were parsed; only what is still pending is missing,
/// and at the end of the output nothing is.
pub proof fn law_a_run_shows_everything<A>(state: ParserState<A>, moments: Seq<Moment<A>>)
    requires
        state.wf(),
        state.can_run(moments),
    ensures
        ({
            let (after, sent) = state.run(moments);
            &&& after.wf()
            &&& joined(sent) + after.pending == state.pending + all_brought(moments)
            &&& after.phase == ParserPhase::Finished ==> joined(sent) == state.pending
                + all_brought(moments)
        }),
    decreases moments.len(),
{
    if moments.len() == 0 {
        assert(joined(Seq::<Seq<A>>::empty()) + state.pending =~= state.pending + all_brought(
            moments,
        ));
    } else {
        let rest = moments.drop_last();
        let last = moments.last();
        law_a_run_shows_everything(state, rest);
        let (before, sent) = state.run(rest);
        let step = before.on_received(last.received, last.config, last.now);
        lemma_step_keeps_wf(before, last.received, last.config, last.now);
        law_actions_keep_their_order(before, last.received, last.config, last.now);
        lemma_joined_add(sent, step.batches);
        assert(joined(sent + step.batches) + step.state.pending =~= joined(sent) + (joined(
            step.batches,
        ) + step.state.pending));
        assert(joined(sent) + (before.pending + brought(last.received)) =~= (joined(sent)
            + before.pending) + brought(last.received));
        assert(state.pending + all_brought(moments) =~= (state.pending + all_brought(rest))
            + brought(last.received));
    }
    let (after, sent) = state.run(moments);
    if after.phase == ParserPhase::Finished {
        assert(joined(sent) + after.pending =~= joined(sent));
    }
}

} // verus!
