use mux::actions::Action;
use mux::host::{ExitBehavior, Platform};
use mux::parser::{
    ActionKind, BufferedParser, CoalesceConfig, DecPrivateMode, DeviceRequest, EscapeSequence,
    NextWait, ParsedAction, Received,
};
use mux::reader::{
    after_exit, keep_reading, relay_read, AfterExit, PaneLiveness, PaneReader, PtyRead,
    ReaderCommand, ReaderEvent, ReaderPhase, Relayed,
};
use mux::win_child::{
    waiter_is_done, ChildPoll, ExitCodeQuery, ExitStatus, OsError, WinChild, WinChildKiller,
    STILL_ACTIVE, WAIT_FAILED, WAIT_TIMEOUT,
};

const CONFIG: CoalesceConfig = CoalesceConfig { delay_ms: 3, buffer_size: 100 };

const TEXT: EscapeSequence = EscapeSequence::Other;
const BEGIN: EscapeSequence =
    EscapeSequence::SetDecPrivateMode(DecPrivateMode::SynchronizedOutput);
const END: EscapeSequence =
    EscapeSequence::ResetDecPrivateMode(DecPrivateMode::SynchronizedOutput);
const RESET: EscapeSequence = EscapeSequence::Device(DeviceRequest::SoftReset);

fn chunk(size: usize, actions: &[(EscapeSequence, char)]) -> Received<Action<char>> {
    Received::Chunk {
        size,
        actions: actions
            .iter()
            .map(|(sequence, action)| ParsedAction {
                sequence: *sequence,
                action: Action::Other(*action),
            })
            .collect(),
    }
}

fn text(batches: Vec<Vec<Action<char>>>) -> Vec<String> {
    let letter = |action: &Action<char>| match action {
        Action::Other(c) => *c,
        _ => panic!("no text was sent"),
    };
    batches.iter().map(|b| b.iter().map(letter).collect()).collect()
}

#[test]
fn characters_that_follow_one_another_are_put_together() {
    let parsed = |action| ParsedAction { sequence: TEXT, action };
    let mut parser: BufferedParser<Action<u8>> = BufferedParser::new(CONFIG);
    let first = vec![
        parsed(Action::Print('a')),
        parsed(Action::Other(7)),
        parsed(Action::Print('b')),
        parsed(Action::Print('c')),
    ];
    let (sent, _) =
        parser.parse_buffered_data(Received::Chunk { size: 4, actions: first }, CONFIG, 0);
    assert!(sent.is_empty());
    // they do so over the border of a chunk, but not into text that came as a whole
    let second = vec![
        parsed(Action::Print('d')),
        parsed(Action::PrintString("ef".to_string())),
        parsed(Action::Print('g')),
    ];
    parser.parse_buffered_data(Received::Chunk { size: 3, actions: second }, CONFIG, 0);
    let (sent, _) = parser.parse_buffered_data(Received::TimedOut, CONFIG, 3);
    assert_eq!(
        sent,
        vec![vec![
            Action::Print('a'),
            Action::Other(7),
            Action::PrintString("bcd".to_string()),
            Action::PrintString("efg".to_string()),
        ]]
    );
}

#[test]
fn only_three_sequences_matter_to_the_batching() {
    assert_eq!(BEGIN.kind(), ActionKind::BeginSync);
    assert_eq!(END.kind(), ActionKind::EndSync);
    assert_eq!(RESET.kind(), ActionKind::SoftReset);
    for sequence in [
        TEXT,
        EscapeSequence::SetDecPrivateMode(DecPrivateMode::Other),
        EscapeSequence::ResetDecPrivateMode(DecPrivateMode::Other),
        EscapeSequence::Device(DeviceRequest::Other),
    ] {
        assert_eq!(sequence.kind(), ActionKind::Other);
    }
}

#[test]
fn a_frame_is_coalesced_until_its_deadline() {
    let mut parser = BufferedParser::new(CONFIG);
    let (sent, wait) =
        parser.parse_buffered_data(chunk(1, &[(TEXT, 'a')]), CONFIG, 1000);
    assert!(sent.is_empty());
    assert_eq!(wait, NextWait::AtMost(3));
    let (sent, wait) =
        parser.parse_buffered_data(chunk(1, &[(TEXT, 'b')]), CONFIG, 1001);
    assert!(sent.is_empty());
    assert_eq!(wait, NextWait::AtMost(2));
    let (sent, wait) = parser.parse_buffered_data(Received::TimedOut, CONFIG, 1003);
    assert_eq!(text(sent), vec!["ab"]);
    assert_eq!(wait, NextWait::Forever);
    // a chunk after the deadline ends the frame at once
    parser.parse_buffered_data(chunk(1, &[(TEXT, 'c')]), CONFIG, 2000);
    let (sent, wait) =
        parser.parse_buffered_data(chunk(1, &[(TEXT, 'd')]), CONFIG, 2004);
    assert_eq!(text(sent), vec!["cd"]);
    assert_eq!(wait, NextWait::Forever);
}

#[test]
fn a_full_buffer_is_not_held_up() {
    let mut parser = BufferedParser::new(CONFIG);
    let (sent, wait) =
        parser.parse_buffered_data(chunk(100, &[(TEXT, 'a')]), CONFIG, 0);
    assert_eq!(text(sent), vec!["a"]);
    assert_eq!(wait, NextWait::Forever);
    parser.parse_buffered_data(chunk(99, &[(TEXT, 'b')]), CONFIG, 0);
    let (sent, _) = parser.parse_buffered_data(chunk(1, &[(TEXT, 'c')]), CONFIG, 0);
    assert_eq!(text(sent), vec!["bc"]);
}

#[test]
fn synchronized_output_is_held_back() {
    let mut parser = BufferedParser::new(CONFIG);
    let (sent, wait) = parser.parse_buffered_data(
        chunk(
            5,
            &[(TEXT, 'a'), (BEGIN, '['), (TEXT, 'b')],
        ),
        CONFIG,
        0,
    );
    assert_eq!(text(sent), vec!["a"]);
    assert_eq!(wait, NextWait::Forever);
    let (sent, wait) =
        parser.parse_buffered_data(chunk(500, &[(TEXT, 'c')]), CONFIG, 0);
    assert!(sent.is_empty());
    assert_eq!(wait, NextWait::Forever);
    let (sent, wait) = parser.parse_buffered_data(
        chunk(2, &[(END, ']'), (TEXT, 'd')]),
        CONFIG,
        0,
    );
    assert_eq!(text(sent), vec!["[bc]"]);
    assert_eq!(wait, NextWait::AtMost(3));
    let (sent, wait) = parser.parse_buffered_data(Received::Disconnected, CONFIG, 0);
    assert_eq!(text(sent), vec!["d"]);
    assert_eq!(wait, NextWait::Finished);
}

#[test]
fn a_soft_reset_releases_what_is_held() {
    let mut parser = BufferedParser::new(CONFIG);
    parser.parse_buffered_data(
        chunk(2, &[(BEGIN, '['), (TEXT, 'a')]),
        CONFIG,
        0,
    );
    let (sent, wait) =
        parser.parse_buffered_data(chunk(1, &[(RESET, '!')]), CONFIG, 0);
    assert_eq!(text(sent), vec!["[a!"]);
    assert_eq!(wait, NextWait::Forever);
}

#[test]
fn the_end_shows_what_was_held() {
    let mut parser = BufferedParser::new(CONFIG);
    parser.parse_buffered_data(
        chunk(2, &[(BEGIN, '['), (TEXT, 'a')]),
        CONFIG,
        0,
    );
    let (sent, wait) = parser.parse_buffered_data(chunk(0, &[]), CONFIG, 0);
    assert_eq!(text(sent), vec!["[a"]);
    assert_eq!(wait, NextWait::Finished);
    let mut silent: BufferedParser<Action<char>> = BufferedParser::new(CONFIG);
    let (sent, wait) = silent.parse_buffered_data(Received::Disconnected, CONFIG, 0);
    assert!(sent.is_empty());
    assert_eq!(wait, NextWait::Finished);
}

#[test]
fn a_changed_setting_counts_from_the_next_frame() {
    let mut parser = BufferedParser::new(CONFIG);
    parser.parse_buffered_data(chunk(1, &[(TEXT, 'a')]), CONFIG, 0);
    let slow = CoalesceConfig { delay_ms: 50, buffer_size: 2 };
    let (sent, wait) = parser.parse_buffered_data(chunk(5, &[(TEXT, 'b')]), slow, 0);
    assert!(sent.is_empty());
    assert_eq!(wait, NextWait::AtMost(3));
    parser.parse_buffered_data(Received::TimedOut, slow, 3);
    let (_, wait) = parser.parse_buffered_data(chunk(1, &[(TEXT, 'c')]), slow, 10);
    assert_eq!(wait, NextWait::AtMost(50));
}

#[test]
fn the_pty_thread_relays_what_it_reads() {
    assert_eq!(relay_read(PtyRead::Bytes(0)), Relayed::EndOfFile);
    assert_eq!(relay_read(PtyRead::Bytes(7)), Relayed::Chunk(7));
    assert_eq!(relay_read(PtyRead::Failed), Relayed::Error);
    assert!(keep_reading(Relayed::Chunk(7), true));
    assert!(!keep_reading(Relayed::Chunk(7), false));
    assert!(!keep_reading(Relayed::EndOfFile, true));
    assert!(!keep_reading(Relayed::Error, true));
}

fn reader_on(platform: Platform) -> PaneReader {
    let (reader, first) = PaneReader::new(platform, true, None).unwrap();
    assert!(first.is_empty());
    reader
}

fn send(data: &[u8]) -> ReaderCommand {
    ReaderCommand::Send(data.to_vec())
}

fn eof() -> ReaderCommand {
    ReaderCommand::Send(Vec::new())
}

fn arrived(data: &[u8]) -> ReaderEvent {
    ReaderEvent::Chunk { data: data.to_vec() }
}

/// The parser is well: whatever is in hand is sent.
fn ok(reader: &mut PaneReader) -> Vec<ReaderCommand> {
    let alive = ReaderEvent::ParserStatus { needs_recovery: false, pane_exists: true };
    reader.read_from_pane_pty(alive)
}

fn died(reader: &mut PaneReader, pane_exists: bool) -> Vec<ReaderCommand> {
    reader.read_from_pane_pty(ReaderEvent::ParserStatus { needs_recovery: true, pane_exists })
}

#[test]
fn chunks_are_carried_to_the_parser() {
    let mut reader = reader_on(Platform::Other);
    assert!(ok(&mut reader).is_empty());
    assert_eq!(reader.phase, ReaderPhase::Receive);
    assert!(reader.read_from_pane_pty(arrived(b"abc")).is_empty());
    assert_eq!(ok(&mut reader), vec![send(b"abc")]);
    assert_eq!(reader.phase, ReaderPhase::Send { recovered: false });
    assert!(reader.read_from_pane_pty(ReaderEvent::Sent { taken: true }).is_empty());
    assert!(ok(&mut reader).is_empty());
    assert!(reader.read_from_pane_pty(ReaderEvent::TimedOut { dead: false }).is_empty());
    assert!(ok(&mut reader).is_empty());
    assert_eq!(reader.read_from_pane_pty(arrived(b"")), vec![eof()]);
    assert_eq!(reader.phase, ReaderPhase::Finished);
    assert!(PaneReader::new(Platform::Other, false, None).is_none());
}

#[test]
fn the_banner_comes_before_the_output() {
    let banner = Some("h\u{e9}".to_string());
    let (mut reader, mut sent) = PaneReader::new(Platform::Other, true, banner).unwrap();
    for data in [b"one".as_slice(), b"two"] {
        sent.extend(ok(&mut reader));
        sent.extend(reader.read_from_pane_pty(arrived(data)));
        sent.extend(ok(&mut reader));
        sent.extend(reader.read_from_pane_pty(ReaderEvent::Sent { taken: true }));
    }
    sent.extend(ok(&mut reader));
    sent.extend(reader.read_from_pane_pty(arrived(b"")));
    assert_eq!(sent, vec![send(b"h\xc3\xa9"), send(b"one"), send(b"two"), eof()]);
}

#[test]
fn a_dead_parser_is_replaced_five_times_on_windows() {
    let mut reader = reader_on(Platform::Windows);
    for _ in 0..5 {
        assert_eq!(died(&mut reader, true), vec![ReaderCommand::RestartParser]);
        assert_eq!(reader.phase, ReaderPhase::CheckParser);
    }
    assert_eq!(died(&mut reader, true), vec![eof()]);
    assert_eq!(reader.phase, ReaderPhase::Finished);

    let mut reader = reader_on(Platform::Windows);
    assert_eq!(died(&mut reader, false), vec![ReaderCommand::ClearRecoveryFlag]);
    assert_eq!(reader.phase, ReaderPhase::Finished);

    let mut reader = reader_on(Platform::Other);
    assert!(died(&mut reader, true).is_empty());
    assert_eq!(reader.phase, ReaderPhase::Finished);
}

#[test]
fn a_chunk_in_hand_goes_to_the_new_parser() {
    let mut reader = reader_on(Platform::Windows);
    ok(&mut reader);
    reader.read_from_pane_pty(arrived(b"x"));
    assert_eq!(died(&mut reader, true), vec![ReaderCommand::RestartParser, send(b"x")]);
    assert_eq!(reader.phase, ReaderPhase::Send { recovered: true });
    // the new parser is not given a second chance
    assert!(reader.read_from_pane_pty(ReaderEvent::Sent { taken: false }).is_empty());
    assert_eq!(reader.phase, ReaderPhase::Finished);

    let mut reader = reader_on(Platform::Windows);
    ok(&mut reader);
    reader.read_from_pane_pty(arrived(b"x"));
    ok(&mut reader);
    assert!(reader.read_from_pane_pty(ReaderEvent::Sent { taken: false }).is_empty());
    assert_eq!(reader.phase, ReaderPhase::CheckParser);

    let mut reader = reader_on(Platform::Other);
    ok(&mut reader);
    reader.read_from_pane_pty(arrived(b"x"));
    ok(&mut reader);
    reader.read_from_pane_pty(ReaderEvent::Sent { taken: false });
    assert_eq!(reader.phase, ReaderPhase::Finished);
}

fn gone() -> ReaderEvent {
    ReaderEvent::Disconnected { pane: PaneLiveness::Alive }
}

#[test]
fn the_pty_thread_is_replaced_three_times() {
    let mut reader = reader_on(Platform::Other);
    for _ in 0..3 {
        ok(&mut reader);
        assert!(reader.read_from_pane_pty(gone()).is_empty());
        assert_eq!(reader.phase, ReaderPhase::AwaitReader);
        assert_eq!(
            reader.read_from_pane_pty(ReaderEvent::NewReader { available: true }),
            vec![ReaderCommand::StartReader]
        );
        assert!(reader.nested);
        ok(&mut reader);
        assert_eq!(reader.run_reader_loop(gone()), (Vec::new(), Some(true)));
        assert!(!reader.nested);
    }
    ok(&mut reader);
    assert_eq!(reader.read_from_pane_pty(gone()), vec![eof()]);
    assert_eq!(reader.phase, ReaderPhase::Finished);
}

#[test]
fn no_new_pty_thread_without_a_running_program_or_a_reader() {
    for pane in [PaneLiveness::Gone, PaneLiveness::Dead] {
        let mut reader = reader_on(Platform::Other);
        ok(&mut reader);
        assert_eq!(
            reader.read_from_pane_pty(ReaderEvent::Disconnected { pane }),
            vec![eof()]
        );
    }
    let mut reader = reader_on(Platform::Other);
    ok(&mut reader);
    reader.read_from_pane_pty(gone());
    assert_eq!(
        reader.read_from_pane_pty(ReaderEvent::NewReader { available: false }),
        vec![eof()]
    );
}

#[test]
fn a_replacement_ends_the_loop_like_the_first() {
    let mut reader = reader_on(Platform::Other);
    ok(&mut reader);
    reader.read_from_pane_pty(gone());
    reader.read_from_pane_pty(ReaderEvent::NewReader { available: true });
    let well = || ReaderEvent::ParserStatus { needs_recovery: false, pane_exists: true };
    // one chunk, and then a failure to read
    let mut sent = Vec::new();
    let mut results = Vec::new();
    for event in [
        well(),
        arrived(b"a"),
        well(),
        ReaderEvent::Sent { taken: true },
        well(),
        ReaderEvent::ReadError,
    ] {
        let (commands, result) = reader.run_reader_loop(event);
        sent.extend(commands);
        results.push(result);
    }
    assert_eq!(sent, vec![send(b"a"), eof()]);
    assert_eq!(results, vec![None, None, None, None, None, Some(false)]);

    let mut reader = reader_on(Platform::Other);
    ok(&mut reader);
    assert!(reader.read_from_pane_pty(ReaderEvent::TimedOut { dead: true }).is_empty());
    assert_eq!(reader.phase, ReaderPhase::Finished);
}

#[test]
fn the_pane_goes_only_if_it_may() {
    assert_eq!(after_exit(None, ExitBehavior::Close), AfterExit::RemovePane);
    assert_eq!(after_exit(None, ExitBehavior::Hold), AfterExit::PruneDeadWindows);
    assert_eq!(after_exit(None, ExitBehavior::CloseOnCleanExit), AfterExit::PruneDeadWindows);
    assert_eq!(
        after_exit(Some(ExitBehavior::Hold), ExitBehavior::Close),
        AfterExit::PruneDeadWindows
    );
    assert_eq!(
        after_exit(Some(ExitBehavior::Close), ExitBehavior::Hold),
        AfterExit::RemovePane
    );
}

fn query(result: i32, code: u32) -> ExitCodeQuery {
    ExitCodeQuery { result, code }
}

#[test]
fn a_failed_query_does_not_mean_that_the_process_ended() {
    let child = WinChild::new();
    assert_eq!(child.is_complete(query(0, 5)), None);
    assert_eq!(child.is_complete(query(1, STILL_ACTIVE)), None);
    assert_eq!(child.try_wait(query(1, 5)), Some(ExitStatus { code: 5 }));
    assert_eq!(child.try_wait(query(-1, 0)), Some(ExitStatus { code: 0 }));
}

#[test]
fn ending_a_process() {
    let child = WinChild::new();
    assert_eq!(child.do_kill(0), Err(OsError));
    assert_eq!(child.do_kill(1), Ok(()));
    assert_eq!(child.kill(0), Ok(()));
    assert_eq!(WinChildKiller.kill(0), Err(OsError));
    assert_eq!(WinChildKiller.kill(1), Ok(()));
    assert_eq!(child.process_id(0), None);
    assert_eq!(child.process_id(42), Some(42));
}

#[test]
fn waiting_for_a_process() {
    let child = WinChild::new();
    let running = query(1, STILL_ACTIVE);
    assert_eq!(child.wait(query(1, 7), WAIT_FAILED, query(0, 0)), Ok(ExitStatus { code: 7 }));
    assert_eq!(child.wait(running, WAIT_FAILED, query(1, 1)), Err(OsError));
    assert_eq!(child.wait(running, 0, query(0, 1)), Err(OsError));
    assert_eq!(child.wait(running, 0, query(1, 9)), Ok(ExitStatus { code: 9 }));
    // after the wait the code is taken as it is
    assert_eq!(child.wait(running, 0, running), Ok(ExitStatus { code: STILL_ACTIVE }));
}

#[test]
fn at_most_one_thread_waits_for_a_process() {
    let mut child = WinChild::new();
    let running = query(1, STILL_ACTIVE);
    assert_eq!(child.poll(running, true), ChildPoll::Pending { spawn_waiter: true });
    assert_eq!(child.poll(running, true), ChildPoll::Pending { spawn_waiter: false });
    assert_eq!(child.poll(query(0, 0), true), ChildPoll::Pending { spawn_waiter: false });
    assert_eq!(child.poll(query(1, 0), true), ChildPoll::Ready(ExitStatus { code: 0 }));
    let mut child = WinChild::new();
    assert_eq!(child.poll(running, false), ChildPoll::CannotWait);
    assert_eq!(child.poll(running, true), ChildPoll::Pending { spawn_waiter: false });
    assert!(waiter_is_done(0));
    assert!(waiter_is_done(WAIT_FAILED));
    assert!(!waiter_is_done(WAIT_TIMEOUT));
}
