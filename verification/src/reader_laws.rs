//! What the loop that carries a pane's output promises, event by event and over runs.
use crate::host::Platform;
use crate::reader::{
    first_state, messages, send_eof, PaneLiveness, ReaderDeed, ReaderEvent, ReaderPhase,
    ReaderState,
};
use vstd::prelude::*;

verus! {

/// Whether the loop counts the same as before, and holds the same chunk.
pub open spec fn nothing_counted(a: ReaderState, b: ReaderState) -> bool {
    &&& a.platform == b.platform
    &&& a.nested == b.nested
    &&& a.parser_recoveries == b.parser_recoveries
    &&& a.reader_recoveries == b.reader_recoveries
    &&& a.held == b.held
}

/// A program that prints nothing is not cut off: however long a living pane is
/// silent, on every platform and under every pty thread, the loop goes on as if
/// nothing had happened.
pub proof fn law_silence_is_not_the_end(reader: ReaderState)
    requires
        reader.wf(),
        reader.phase == ReaderPhase::Receive,
    ensures
        ({
            let (after, deeds) = reader.after(ReaderEvent::TimedOut { dead: false });
            &&& reader.expects(ReaderEvent::TimedOut { dead: false })
            &&& after.phase == ReaderPhase::CheckParser
            &&& deeds.len() == 0
            &&& nothing_counted(reader, after)
        }),
{
}

/// The loop ends only because the pty is at its end or could not be read, because the
/// pane was found dead, because the parser died and cannot be replaced, because it
/// refused a chunk and gets no second chance, or because the pty thread is gone and
/// cannot be replaced; and on each of these it does end.
pub proof fn law_what_ends_the_loop(reader: ReaderState, event: ReaderEvent)
    requires
        reader.wf(),
        reader.expects(event),
    ensures
        reader.after(event).0.phase == ReaderPhase::Finished <==> {
            ||| event is ReadError
            ||| event is Chunk && event->data@.len() == 0
            ||| event is TimedOut && event->dead
            ||| event is ParserStatus && event->needs_recovery && (reader.platform
                == Platform::Other || !event->pane_exists || reader.parser_recoveries == 5)
            ||| event is Sent && !event->taken && (reader.platform == Platform::Other
                || reader.phase == (ReaderPhase::Send { recovered: true }))
            ||| event is Disconnected && !reader.nested && (event->pane != PaneLiveness::Alive
                || reader.reader_recoveries == 3)
            ||| event is NewReader && !event->available
        },
{
}

/// The parser is replaced exactly if it died on Windows, the pane is there, and it has
/// been replaced fewer than five times; each attempt counts, and nothing else does.
pub proof fn law_when_the_parser_is_replaced(reader: ReaderState, event: ReaderEvent)
    requires
        reader.wf(),
        reader.expects(event),
    ensures
        reader.after(event).1.contains(ReaderDeed::RestartParser) <==> event is ParserStatus
            && event->needs_recovery && event->pane_exists && reader.platform == Platform::Windows
            && reader.parser_recoveries < 5,
        reader.after(event).0.parser_recoveries == reader.parser_recoveries + (if event
            is ParserStatus && event->needs_recovery && reader.platform == Platform::Windows {
            1int
        } else {
            0int
        }),
        reader.after(event).1.contains(ReaderDeed::ClearRecoveryFlag) <==> event is ParserStatus
            && event->needs_recovery && !event->pane_exists && reader.platform == Platform::Windows
            && reader.parser_recoveries < 5,
{
    let deeds = reader.after(event).1;
    if deeds.len() > 0 {
        assert(deeds.contains(deeds[0]));
    }
    if deeds.len() > 1 {
        assert(deeds.contains(deeds[1]));
    }
}

/// A new reader is sought exactly if the pty thread is gone under a running program
/// and was replaced fewer than three times; one that is to be had is started, and only
/// then. While it is in use its end hands back to the main loop.
pub proof fn law_when_the_pty_thread_is_replaced(reader: ReaderState, event: ReaderEvent)
    requires
        reader.wf(),
        reader.expects(event),
    ensures
        reader.after(event).0.phase == ReaderPhase::AwaitReader <==> event is Disconnected
            && !reader.nested && event->pane == PaneLiveness::Alive && reader.reader_recoveries
            < 3,
        reader.after(event).1.contains(ReaderDeed::StartReader) <==> event is NewReader
            && event->available,
        reader.after(event).0.reader_recoveries == reader.reader_recoveries + (if event is NewReader
            && event->available {
            1int
        } else {
            0int
        }),
        reader.after(event).0.nested <==> {
            ||| event is NewReader && event->available
            ||| reader.nested && !(event is Disconnected)
        },
        reader.nested && event is Disconnected ==> reader.after(event).0.phase
            == ReaderPhase::CheckParser && reader.after(event).1.len() == 0,
        reader.after(event).0.platform == reader.platform,
{
    let deeds = reader.after(event).1;
    if deeds.len() > 0 {
        assert(deeds.contains(deeds[0]));
    }
    if deeds.len() > 1 {
        assert(deeds.contains(deeds[1]));
    }
}

/// The parser is told that the output is over exactly if the loop ends although both
/// the pane and the parser are there to hear it: at the end of the pty or when it
/// fails, when there is no new reader for it, and when the parser died once too often.
pub proof fn law_when_the_end_is_told(reader: ReaderState, event: ReaderEvent)
    requires
        reader.wf(),
        reader.expects(event),
    ensures
        reader.after(event).1.contains(send_eof()) <==> {
            ||| event is ReadError
            ||| event is Chunk && event->data@.len() == 0
            ||| event is Disconnected && !reader.nested && (event->pane != PaneLiveness::Alive
                || reader.reader_recoveries == 3)
            ||| event is NewReader && !event->available
            ||| event is ParserStatus && event->needs_recovery && reader.platform
                == Platform::Windows && reader.parser_recoveries == 5
        },
        send_eof() == ReaderDeed::Send(Seq::<u8>::empty()),
        reader.after(event).1.contains(send_eof()) ==> reader.after(event).1.len() == 1,
{
    let deeds = reader.after(event).1;
    if deeds.len() > 0 {
        assert(deeds.contains(deeds[0]));
    }
    if deeds.len() > 1 {
        assert(deeds.contains(deeds[1]));
    }
    if deeds.contains(send_eof()) {
        let i = deeds.index_of(send_eof());
        assert(deeds[i] == send_eof());
    }
}

/// A chunk that arrives is held, and goes out to the parser at the next look at it
/// unless the loop ends there; nothing else is sent but the end of the output.
pub proof fn law_a_held_chunk_goes_out(reader: ReaderState, event: ReaderEvent)
    requires
        reader.wf(),
        reader.expects(event),
    ensures
        event is Chunk && event->data@.len() > 0 ==> {
            &&& reader.after(event).0.held == event->data@
            &&& reader.after(event).0.phase == ReaderPhase::CheckBeforeSend
            &&& reader.after(event).1.len() == 0
        },
        reader.phase == ReaderPhase::CheckBeforeSend && reader.after(event).0.phase
            != ReaderPhase::Finished ==> {
            &&& messages(reader.after(event).1) == seq![reader.held]
            &&& reader.after(event).0.held.len() == 0
            &&& reader.after(event).0.phase == (ReaderPhase::Send {
                recovered: event->needs_recovery,
            })
        },
        reader.phase != ReaderPhase::CheckBeforeSend && !reader.after(event).1.contains(send_eof())
            ==> messages(reader.after(event).1).len() == 0,
{
    reveal_with_fuel(messages, 3);
    let deeds = reader.after(event).1;
    if deeds.len() > 0 {
        assert(deeds.contains(deeds[0]));
        assert(deeds.drop_last() =~= deeds.take(deeds.len() - 1));
    }
    if deeds.len() == 1 {
        assert(deeds.drop_last() =~= Seq::empty());
    }
    if deeds.len() == 2 {
        assert(deeds.drop_last().drop_last() =~= Seq::empty());
        assert(deeds.drop_last().last() == deeds[0]);
    }
}

/// Where the loop goes when it goes on and neither a chunk is in hand nor a reader
/// wanted: to receive once the parser is found well, and else to look at the parser.
pub proof fn law_where_the_loop_goes_on(reader: ReaderState, event: ReaderEvent)
    requires
        reader.wf(),
        reader.expects(event),
        reader.phase != ReaderPhase::CheckBeforeSend,
        reader.after(event).0.phase != ReaderPhase::Finished,
        !(event is Chunk),
        !(event is Disconnected && !reader.nested),
    ensures
        reader.after(event).0.phase == (if event is ParserStatus && !event->needs_recovery {
            ReaderPhase::Receive
        } else {
            ReaderPhase::CheckParser
        }),
        reader.after(event).0.held.len() == 0,
{
}

/// What the loop is told is what it waits for: the state of the parser, then whatever
/// comes of receiving, then whether a chunk was taken, and a reader where one is
/// sought. Once it has ended it waits for nothing.
pub proof fn law_what_is_waited_for(reader: ReaderState, event: ReaderEvent)
    ensures
        event is ParserStatus ==> (reader.expects(event) <==> reader.phase
            == ReaderPhase::CheckParser || reader.phase == ReaderPhase::CheckBeforeSend),
        event is Chunk || event is ReadError || event is TimedOut || event is Disconnected ==> (
        reader.expects(event) <==> reader.phase == ReaderPhase::Receive),
        event is Sent ==> (reader.expects(event) <==> reader.phase is Send),
        event is NewReader ==> (reader.expects(event) <==> reader.phase
            == ReaderPhase::AwaitReader),
{
}

/// A new loop is ready to look at the parser, holds nothing and has replaced nothing,
/// on every platform.
pub proof fn law_a_new_loop_is_ready(platform: Platform)
    ensures
        first_state(platform).wf(),
        first_state(platform).platform == platform,
        first_state(platform).phase == ReaderPhase::CheckParser,
        first_state(platform).held.len() == 0,
        !first_state(platform).nested,
        first_state(platform).parser_recoveries == 0,
        first_state(platform).reader_recoveries == 0,
{
}

/// While the parser is well, any chunk goes through: it arrives, is sent unchanged,
/// and when the parser has taken it the loop is where it was.
pub proof fn law_output_flows(reader: ReaderState, data: Vec<u8>)
    requires
        reader.wf(),
        reader.phase == ReaderPhase::CheckParser,
        data@.len() > 0,
    ensures
        ({
            let well = ReaderEvent::ParserStatus { needs_recovery: false, pane_exists: true };
            let chunk = ReaderEvent::Chunk { data };
            let taken = ReaderEvent::Sent { taken: true };
            let (a, first) = reader.after(well);
            let (b, second) = a.after(chunk);
            let (c, third) = b.after(well);
            let (d, fourth) = c.after(taken);
            &&& reader.expects(well) && a.expects(chunk) && b.expects(well) && c.expects(taken)
            &&& first + second + third + fourth == seq![ReaderDeed::Send(data@)]
            &&& d == reader
        }),
{
    let well = ReaderEvent::ParserStatus { needs_recovery: false, pane_exists: true };
    let (a, first) = reader.after(well);
    let (b, second) = a.after(ReaderEvent::Chunk { data });
    let (c, third) = b.after(well);
    let (d, fourth) = c.after(ReaderEvent::Sent { taken: true });
    assert(first + second + third + fourth =~= seq![ReaderDeed::Send(data@)]);
    assert(d.held =~= reader.held);
    assert(d =~= reader);
}

} // verus!
