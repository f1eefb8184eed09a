//! What the batching of output promises, in terms of the sequences that arrive.
use crate::actions::{appended, coalesced, Doing};
use crate::parser::{
    actions_of, joined, lemma_joined_add, lemma_joined_one, CoalesceConfig, DecPrivateMode,
    DeviceRequest, EscapeSequence, NextWait, ParsedAction, ParserPhase, ParserState, Received,
};
use vstd::prelude::*;

verus! {

/// The program asks to hold its output back.
pub open spec fn begins_hold<A>(parsed: ParsedAction<A>) -> bool {
    parsed.sequence == EscapeSequence::SetDecPrivateMode(DecPrivateMode::SynchronizedOutput)
}

/// The program releases its output, or resets the terminal.
pub open spec fn ends_hold<A>(parsed: ParsedAction<A>) -> bool {
    ||| parsed.sequence == EscapeSequence::ResetDecPrivateMode(DecPrivateMode::SynchronizedOutput)
    ||| parsed.sequence == EscapeSequence::Device(DeviceRequest::SoftReset)
}

/// No action after the one at `i` asks for a hold or ends one.
pub open spec fn last_word<A>(parsed: Seq<ParsedAction<A>>, i: int) -> bool {
    forall|j: int|
        i < j < parsed.len() ==> !begins_hold(#[trigger] parsed[j]) && !ends_hold(parsed[j])
}

/// Whether output is held back after a list of actions, if it was (`before`).
pub open spec fn held_after<A>(before: bool, parsed: Seq<ParsedAction<A>>, after: bool) -> bool {
    &&& forall|i: int|
        0 <= i < parsed.len() && begins_hold(#[trigger] parsed[i]) && last_word(parsed, i) ==> after
    &&& forall|i: int|
        0 <= i < parsed.len() && ends_hold(#[trigger] parsed[i]) && last_word(parsed, i) ==> !after
    &&& last_word(parsed, -1) ==> after == before
}

/// Whether one of the batches ends after the first `x` actions of all.
pub open spec fn ends_at<A>(batches: Seq<Seq<A>>, x: int) -> bool {
    exists|j: int| 0 < j <= batches.len() && #[trigger] joined(batches.take(j)).len() == x
}

/// Whether a list of actions that follows `m` others asks for a cut after the first
/// `x`: in front of a request to hold, if anything is there to be sent, and behind
/// what ends a hold.
pub open spec fn cut_wanted<A>(m: nat, parsed: Seq<ParsedAction<A>>, x: int) -> bool {
    exists|i: int|
        0 <= i < parsed.len() && (begins_hold(#[trigger] parsed[i]) && x == m + i && x > 0
            || ends_hold(parsed[i]) && x == m + i + 1)
}

proof fn lemma_ends_at_add<A>(a: Seq<Seq<A>>, batch: Seq<A>, x: int)
    ensures
        ends_at(a.push(batch), x) <==> ends_at(a, x) || x == joined(a).len() + batch.len(),
{
    let b = a.push(batch);
    assert(b.drop_last() =~= a);
    assert(b.take(b.len() as int) =~= b);
    if ends_at(a, x) {
        let j = choose|j: int| 0 < j <= a.len() && #[trigger] joined(a.take(j)).len() == x;
        assert(b.take(j) =~= a.take(j));
        assert(joined(b.take(j)).len() == x);
    }
    if x == joined(a).len() + batch.len() {
        assert(joined(b.take(b.len() as int)).len() == x);
    }
    if ends_at(b, x) {
        let j = choose|j: int| 0 < j <= b.len() && #[trigger] joined(b.take(j)).len() == x;
        if j < b.len() {
            assert(b.take(j) =~= a.take(j));
            assert(joined(a.take(j)).len() == x);
        }
    }
}

proof fn lemma_fed<A>(state: ParserState<A>, parsed: Seq<ParsedAction<A>>)
    ensures
        ({
            let (fed, sent) = state.take_in_all(parsed);
            &&& held_after(state.hold, parsed, fed.hold)
            &&& joined(sent).len() + fed.pending.len() == state.pending.len() + parsed.len()
            &&& forall|x: int| #[trigger]
                ends_at(sent, x) <==> cut_wanted(state.pending.len(), parsed, x)
            &&& fed.size == (if sent.len() > 0 {
                0
            } else {
                state.size
            })
            &&& fed.pending.len() == 0 <==> (if parsed.len() == 0 {
                state.pending.len() == 0
            } else {
                ends_hold(parsed.last())
            })
            &&& fed.delay == state.delay
            &&& fed.deadline == state.deadline
            &&& fed.limit == state.limit
            &&& fed.phase == state.phase
        }),
    decreases parsed.len(),
{
    let m = state.pending.len();
    if parsed.len() == 0 {
        assert(forall|x: int| !ends_at(Seq::<Seq<A>>::empty(), x));
        assert(forall|x: int| !cut_wanted(m, parsed, x));
    } else {
        let rest = parsed.drop_last();
        let last = parsed.last();
        let n = rest.len() as int;
        lemma_fed(state, rest);
        let (mid, sent) = state.take_in_all(rest);
        let (fed, more) = mid.take_in(last);
        let all = sent + more;
        assert(parsed[n] == last);
        assert forall|x: int| cut_wanted(m, parsed, x) <==> cut_wanted(m, rest, x) || (begins_hold(
            last,
        ) && x == m + n && x > 0) || (ends_hold(last) && x == m + n + 1) by {
            if cut_wanted(m, rest, x) {
                let i = choose|i: int|
                    0 <= i < rest.len() && (begins_hold(#[trigger] rest[i]) && x == m + i && x > 0
                        || ends_hold(rest[i]) && x == m + i + 1);
                assert(parsed[i] == rest[i]);
            }
            if cut_wanted(m, parsed, x) {
                let i = choose|i: int|
                    0 <= i < parsed.len() && (begins_hold(#[trigger] parsed[i]) && x == m + i && x
                        > 0 || ends_hold(parsed[i]) && x == m + i + 1);
                if i < n {
                    assert(parsed[i] == rest[i]);
                }
            }
        }
        if more.len() > 0 {
            assert(more =~= seq![more[0]]);
            assert(all =~= sent.push(more[0]));
            lemma_joined_add(sent, more);
            lemma_joined_one(more[0]);
        } else {
            assert(all =~= sent);
        }
        assert forall|x: int| #[trigger] ends_at(all, x) <==> cut_wanted(m, parsed, x) by {
            if more.len() > 0 {
                lemma_ends_at_add(sent, more[0], x);
            } else if begins_hold(last) && x == m + n && x > 0 {
                assert(joined(sent).len() == x);
                assert(sent.len() > 0);
                assert(sent.take(sent.len() as int) =~= sent);
                assert(joined(sent.take(sent.len() as int)).len() == x);
                assert(ends_at(sent, x));
            }
        }
        lemma_held(state.hold, mid.hold, rest, last, fed.hold);
        assert(rest.push(last) =~= parsed);
    }
}

proof fn lemma_held<A>(
    before: bool,
    mid: bool,
    rest: Seq<ParsedAction<A>>,
    last: ParsedAction<A>,
    after: bool,
)
    requires
        held_after(before, rest, mid),
        after == (if begins_hold(last) {
            true
        } else if ends_hold(last) {
            false
        } else {
            mid
        }),
    ensures
        held_after(before, rest.push(last), after),
{
    let parsed = rest.push(last);
    let n = rest.len() as int;
    assert(parsed[n] == last);
    let marks = begins_hold(last) || ends_hold(last);
    assert forall|i: int| -1 <= i < n && last_word(parsed, i) implies !marks && last_word(
        rest,
        i,
    ) by {
        assert(!begins_hold(parsed[n]) && !ends_hold(parsed[n]));
        assert forall|j: int| i < j < rest.len() implies !begins_hold(#[trigger] rest[j])
            && !ends_hold(rest[j]) by {
            assert(parsed[j] == rest[j]);
        }
    }
    assert forall|i: int|
        0 <= i < parsed.len() && begins_hold(#[trigger] parsed[i]) && last_word(
            parsed,
            i,
        ) implies after by {
        if i < n {
            assert(parsed[i] == rest[i]);
        }
    }
    assert forall|i: int|
        0 <= i < parsed.len() && ends_hold(#[trigger] parsed[i]) && last_word(
            parsed,
            i,
        ) implies !after by {
        if i < n {
            assert(parsed[i] == rest[i]);
        }
    }
}

/// Between frames, whoever had the last word in a chunk decides whether output is
/// held back: a request to hold, or the end of one; without either it stays as it was.
/// While the rest of a frame is waited for, nothing is held.
pub proof fn law_the_last_word_holds_or_releases<A>(
    state: ParserState<A>,
    size: usize,
    actions: Vec<ParsedAction<A>>,
    config: CoalesceConfig,
    now: u64,
)
    requires
        state.wf(),
        state.phase == ParserPhase::Idle,
        size > 0,
    ensures
        held_after(
            state.hold,
            actions@,
            state.on_received(Received::Chunk { size, actions }, config, now).state.hold,
        ),
{
    lemma_fed(state, actions@);
}

/// Between frames, output is cut exactly where the program asks for it. Whatever came
/// before a request to hold has gone out in front of it, and what ends a hold is the
/// last action of a batch that goes out in that very step. There is no other cut,
/// except that all that is left may go out too.
pub proof fn law_output_is_cut_where_asked<A>(
    state: ParserState<A>,
    size: usize,
    actions: Vec<ParsedAction<A>>,
    config: CoalesceConfig,
    now: u64,
    x: int,
)
    requires
        state.wf(),
        state.phase == ParserPhase::Idle,
        size > 0,
    ensures
        ({
            let sent = state.on_received(Received::Chunk { size, actions }, config, now).batches;
            let total = state.pending.len() + actions@.len();
            &&& cut_wanted(state.pending.len(), actions@, x) ==> ends_at(sent, x)
            &&& ends_at(sent, x) ==> cut_wanted(state.pending.len(), actions@, x) || x == total
        }),
{
    lemma_fed(state, actions@);
    let (fed, sent) = state.take_in_all(actions@);
    let step = state.on_received(Received::Chunk { size, actions }, config, now);
    assert(ends_at(sent, x) <==> cut_wanted(state.pending.len(), actions@, x));
    if step.batches != sent {
        assert(step.batches =~= sent.push(fed.pending));
        lemma_ends_at_add(sent, fed.pending, x);
    }
}

/// How many bytes count against the buffer once a chunk of `size` bytes has been taken
/// in between frames: those of the chunk, and those before it if nothing has gone out.
pub open spec fn bytes_counted<A>(
    state: ParserState<A>,
    size: usize,
    parsed: Seq<ParsedAction<A>>,
) -> int {
    let so_far = if exists|x: int| cut_wanted(state.pending.len(), parsed, x) {
        0
    } else {
        state.size as int
    };
    if so_far + size > usize::MAX {
        usize::MAX as int
    } else {
        so_far + size
    }
}

proof fn lemma_counted<A>(state: ParserState<A>, size: usize, parsed: Seq<ParsedAction<A>>)
    ensures
        ({
            let fed = state.take_in_all(parsed).0;
            bytes_counted(state, size, parsed) == (if fed.size + size > usize::MAX {
                usize::MAX as int
            } else {
                fed.size + size
            })
        }),
{
    lemma_fed(state, parsed);
    let (fed, sent) = state.take_in_all(parsed);
    if sent.len() > 0 {
        let x = joined(sent).len() as int;
        assert(sent.take(sent.len() as int) =~= sent);
        assert(joined(sent.take(sent.len() as int)).len() == x);
        assert(ends_at(sent, x));
        assert(cut_wanted(state.pending.len(), parsed, x));
    } else if exists|x: int| cut_wanted(state.pending.len(), parsed, x) {
        let x = choose|x: int| cut_wanted(state.pending.len(), parsed, x);
        assert(ends_at(sent, x));
    }
}

/// A chunk between frames that leaves output to be shown and not held back begins a
/// frame: the rest of it is waited for as long as the delay says, unless the buffer is
/// full, and then it is shown at once.
pub proof fn law_a_frame_begins_or_is_shown<A>(
    state: ParserState<A>,
    size: usize,
    actions: Vec<ParsedAction<A>>,
    config: CoalesceConfig,
    now: u64,
)
    requires
        state.wf(),
        state.phase == ParserPhase::Idle,
        size > 0,
        actions@.len() > 0,
        !ends_hold(actions@.last()),
        !state.on_received(Received::Chunk { size, actions }, config, now).state.hold,
    ensures
        ({
            let step = state.on_received(Received::Chunk { size, actions }, config, now);
            let counted = bytes_counted(state, size, actions@);
            let total = state.pending.len() + actions@.len();
            &&& counted < config.buffer_size ==> {
                &&& step.wait == NextWait::AtMost(state.delay as u128)
                &&& step.state.phase == ParserPhase::Coalescing
                &&& step.state.deadline == Some((now + state.delay) as u128)
                &&& step.state.size == counted
                &&& step.state.limit == config.buffer_size
                &&& step.state.delay == state.delay
                &&& step.state.pending.len() > 0
                &&& !ends_at(step.batches, total as int)
            }
            &&& counted >= config.buffer_size ==> {
                &&& step.wait == NextWait::Forever
                &&& step.state.phase == ParserPhase::Idle
                &&& step.state.deadline is None
                &&& step.state.size == 0
                &&& step.state.delay == config.delay_ms
                &&& step.state.pending.len() == 0
                &&& ends_at(step.batches, total as int)
            }
        }),
{
    lemma_fed(state, actions@);
    lemma_counted(state, size, actions@);
    let (fed, sent) = state.take_in_all(actions@);
    let step = state.on_received(Received::Chunk { size, actions }, config, now);
    let total = (state.pending.len() + actions@.len()) as int;
    if step.state.phase == ParserPhase::Coalescing {
        assert(step.batches =~= sent);
        if ends_at(sent, total) {
            assert(cut_wanted(state.pending.len(), actions@, total));
            let i = choose|i: int|
                0 <= i < actions@.len() && (begins_hold(#[trigger] actions@[i]) && total
                    == state.pending.len() + i && total > 0 || ends_hold(actions@[i]) && total
                    == state.pending.len() + i + 1);
            assert(false);
        }
    } else {
        assert(step.batches =~= sent.push(fed.pending));
        lemma_ends_at_add(sent, fed.pending, total);
    }
}

/// A chunk between frames after which nothing is left to be shown, or output is held
/// back, is followed by a wait for as long as it takes. What is held stays.
pub proof fn law_nothing_to_show_is_no_frame<A>(
    state: ParserState<A>,
    size: usize,
    actions: Vec<ParsedAction<A>>,
    config: CoalesceConfig,
    now: u64,
)
    requires
        state.wf(),
        state.phase == ParserPhase::Idle,
        size > 0,
        state.on_received(Received::Chunk { size, actions }, config, now).state.hold
            || actions@.len() == 0 || ends_hold(actions@.last()),
    ensures
        ({
            let step = state.on_received(Received::Chunk { size, actions }, config, now);
            let total = state.pending.len() + actions@.len();
            &&& step.wait == NextWait::Forever
            &&& step.state.phase == ParserPhase::Idle
            &&& step.state.deadline is None
            &&& step.state.delay == config.delay_ms
            &&& step.state.size == bytes_counted(state, size, actions@)
            &&& step.state.pending.len() == 0 <==> total == 0 || (actions@.len() > 0 && ends_hold(
                actions@.last(),
            ))
            &&& ends_at(step.batches, total as int) ==> step.state.pending.len() == 0
        }),
{
    lemma_fed(state, actions@);
    lemma_counted(state, size, actions@);
    let (fed, sent) = state.take_in_all(actions@);
    let total = (state.pending.len() + actions@.len()) as int;
    if ends_at(sent, total) {
        assert(cut_wanted(state.pending.len(), actions@, total));
        let i = choose|i: int|
            0 <= i < actions@.len() && (begins_hold(#[trigger] actions@[i]) && total
                == state.pending.len() + i && total > 0 || ends_hold(actions@[i]) && total
                == state.pending.len() + i + 1);
        assert(actions@[i] == actions@.last());
    }
    if actions@.len() == 0 {
        assert(sent.len() == 0);
    }
}

/// While the rest of a frame is waited for, a chunk only adds to it: the frame goes out
/// as one batch if the buffer is full or its time is up, and otherwise it is waited on
/// for what is left of that time.
pub proof fn law_a_frame_grows_until_it_is_full_or_late<A>(
    state: ParserState<A>,
    size: usize,
    actions: Vec<ParsedAction<A>>,
    config: CoalesceConfig,
    now: u64,
)
    requires
        state.wf(),
        state.phase == ParserPhase::Coalescing,
        size > 0,
    ensures
        ({
            let step = state.on_received(Received::Chunk { size, actions }, config, now);
            let frame = state.pending + actions_of(actions@);
            let until = state.deadline->0;
            let over = state.size + size >= state.limit || size + state.size > usize::MAX || until
                < now;
            &&& !step.state.hold
            &&& over ==> {
                &&& step.batches == seq![frame]
                &&& step.wait == NextWait::Forever
                &&& step.state.pending.len() == 0
                &&& step.state.phase == ParserPhase::Idle
                &&& step.state.size == 0
                &&& step.state.delay == config.delay_ms
                &&& step.state.deadline is None
            }
            &&& !over ==> {
                &&& step.batches.len() == 0
                &&& step.wait == NextWait::AtMost((until - now) as u128)
                &&& step.state.pending == frame
                &&& step.state.phase == ParserPhase::Coalescing
                &&& step.state.size == state.size + size
                &&& step.state.limit == state.limit
                &&& step.state.deadline == state.deadline
                &&& step.state.delay == state.delay
            }
        }),
{
}

/// When the time of a frame is up it goes out whole, and the next one starts afresh
/// with the delay that is configured now.
pub proof fn law_a_late_frame_is_shown<A>(state: ParserState<A>, config: CoalesceConfig, now: u64)
    requires
        state.wf(),
        state.phase == ParserPhase::Coalescing,
    ensures
        ({
            let step = state.on_received(Received::TimedOut, config, now);
            &&& state.expects(Received::TimedOut)
            &&& step.batches == seq![state.pending]
            &&& step.wait == NextWait::Forever
            &&& step.state.pending.len() == 0
            &&& step.state.phase == ParserPhase::Idle
            &&& step.state.size == 0
            &&& step.state.delay == config.delay_ms
            &&& step.state.deadline is None
            &&& !step.state.hold
        }),
{
}

/// At the end of the output, be it held back or not, all that is pending goes out at
/// once.
pub proof fn law_the_end_shows_the_rest<A>(
    state: ParserState<A>,
    received: Received<A>,
    config: CoalesceConfig,
    now: u64,
)
    requires
        state.wf(),
        state.phase != ParserPhase::Finished,
        received is Disconnected || received is Chunk && received->size == 0,
    ensures
        state.expects(received),
        joined(state.on_received(received, config, now).batches) == state.pending,
        state.on_received(received, config, now).batches.len() <= 1,
        state.on_received(received, config, now).wait == NextWait::Finished,
        state.on_received(received, config, now).state.pending.len() == 0,
{
    lemma_joined_one(state.pending);
    if state.pending.len() == 0 {
        assert(joined(Seq::<Seq<A>>::empty()) =~= state.pending);
    }
}

/// A chunk can come while anything is waited for, a timeout only while the rest of a
/// frame is, and nothing after the end.
pub proof fn law_what_can_be_received<A>(state: ParserState<A>, received: Received<A>)
    ensures
        state.expects(received) <==> state.phase != ParserPhase::Finished && (received is TimedOut
            ==> state.phase == ParserPhase::Coalescing),
{
}

// ---- text ----
/// Once text has been put together, no lone character is left next to other text in
/// front of it, and whatever is not a lone character stands as it came.
pub proof fn law_characters_join_the_text_before_them<A>(
    actions: Seq<Doing<A>>,
    action: Doing<A>,
)
    ensures
        forall|i: int|
            0 < i < coalesced(actions).len() && (#[trigger] coalesced(actions)[i]) is Print
                ==> coalesced(actions)[i - 1] is Other,
        !(action is Print) ==> coalesced(actions.push(action)) == coalesced(actions).push(action),
        action is Print ==> coalesced(actions.push(action)).len() == coalesced(actions).len() + (
        if coalesced(actions).len() == 0 || coalesced(actions).last() is Other {
            1int
        } else {
            0int
        }),
    decreases actions.len(),
{
    assert(actions.push(action).drop_last() =~= actions);
    if actions.len() > 0 {
        let rest = actions.drop_last();
        let last = actions.last();
        law_characters_join_the_text_before_them(rest, last);
        assert(coalesced(actions) == appended(coalesced(rest), last));
        let before = coalesced(rest);
        let now = coalesced(actions);
        assert forall|i: int| 0 < i < now.len() && (#[trigger] now[i]) is Print implies now[i - 1]
            is Other by {
            if i < now.len() - 1 {
                assert(now[i] == before[i]);
                assert(now[i - 1] == before[i - 1]);
            } else {
                assert(last is Print);
                assert(now[i - 1] == before[i - 1]);
            }
        }
    }
}

} // verus!
