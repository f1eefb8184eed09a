//! Copying to and pasting from the system clipboards.
use crate::ids::PaneId;
use vstd::prelude::*;

verus! {

/// A clipboard of the window system.
#[derive(Clone, Copy, Debug, PartialEq, Eq, Structural)]
pub enum Clipboard {
    Clipboard,
    PrimarySelection,
}

/// Where copied text goes.
#[derive(Clone, Copy, Debug, PartialEq, Eq, Structural)]
pub enum ClipboardCopyDestination {
    Clipboard,
    PrimarySelection,
    ClipboardAndPrimarySelection,
}

/// Where pasted text comes from.
#[derive(Clone, Copy, Debug, PartialEq, Eq, Structural)]
pub enum ClipboardPasteSource {
    Clipboard,
    PrimarySelection,
}

/// Input that waits until a pane can take it.
pub enum InputOp {
    Paste(String),
}

/// How sending pasted text to a pane came out.
#[derive(Clone, Copy, Debug, PartialEq, Eq, Structural)]
pub enum PasteResult {
    Sent,
    /// The pane cannot take the text right now.
    WouldBlock,
    Failed,
}

/// The part of a terminal window that deals with the clipboards.
pub struct TermWindow {
    /// Input that waits to be sent, in order, with the pane that it is for.
    pub queued: Vec<(PaneId, InputOp)>,
}

/// Text that waits to be pasted, in order, with the pane that it is for.
pub open spec fn waiting(queued: Seq<(PaneId, InputOp)>) -> Seq<(PaneId, Seq<char>)> {
    queued.map_values(
        |entry: (PaneId, InputOp)|
            match entry.1 {
                InputOp::Paste(text) => (entry.0, text@),
            },
    )
}

/// One attempt to paste, and how it came out.
pub struct PasteAttempt {
    pub pane_id: PaneId,
    pub text: Seq<char>,
    pub result: PasteResult,
}

/// What waits after an attempt to paste: text that a pane could not take is kept,
/// under the id of the pane that the paste was asked for.
pub open spec fn after_paste(waiting: Seq<(PaneId, Seq<char>)>, attempt: PasteAttempt) -> Seq<
    (PaneId, Seq<char>),
> {
    if attempt.result == PasteResult::WouldBlock {
        waiting.push((attempt.pane_id, attempt.text))
    } else {
        waiting
    }
}

/// What waits after several attempts.
pub open spec fn after_pastes(
    waiting: Seq<(PaneId, Seq<char>)>,
    attempts: Seq<PasteAttempt>,
) -> Seq<(PaneId, Seq<char>)>
    decreases attempts.len(),
{
    if attempts.len() == 0 {
        waiting
    } else {
        after_paste(after_pastes(waiting, attempts.drop_last()), attempts.last())
    }
}

/// A paste that a pane could not take is not lost: it waits behind those that came
/// before it, and what waited already stays where it is.
pub proof fn law_no_paste_is_lost(
    waiting: Seq<(PaneId, Seq<char>)>,
    attempts: Seq<PasteAttempt>,
    i: int,
)
    requires
        0 <= i < attempts.len(),
        attempts[i].result == PasteResult::WouldBlock,
    ensures
        after_pastes(waiting, attempts.take(i)).len() < after_pastes(waiting, attempts).len(),
        after_pastes(waiting, attempts)[after_pastes(waiting, attempts.take(i)).len() as int] == (
            attempts[i].pane_id,
            attempts[i].text,
        ),
        waiting.len() <= after_pastes(waiting, attempts).len(),
        forall|k: int|
            0 <= k < waiting.len() ==> after_pastes(waiting, attempts)[k] == #[trigger] waiting[k],
    decreases attempts.len(),
{
    let rest = attempts.drop_last();
    lemma_waiting_stays(waiting, attempts);
    if i == rest.len() {
        assert(attempts.take(i) =~= rest);
    } else {
        assert(rest.take(i) =~= attempts.take(i));
        law_no_paste_is_lost(waiting, rest, i);
    }
}

proof fn lemma_waiting_stays(waiting: Seq<(PaneId, Seq<char>)>, attempts: Seq<PasteAttempt>)
    ensures
        waiting.len() <= after_pastes(waiting, attempts).len(),
        forall|k: int|
            0 <= k < waiting.len() ==> after_pastes(waiting, attempts)[k] == #[trigger] waiting[k],
    decreases attempts.len(),
{
    if attempts.len() > 0 {
        lemma_waiting_stays(waiting, attempts.drop_last());
    }
}

/// The clipboards that a destination stands for, in the order in which they
/// are filled.
pub open spec fn clipboards_for(destination: ClipboardCopyDestination) -> Seq<Clipboard> {
    match destination {
        ClipboardCopyDestination::Clipboard => seq![Clipboard::Clipboard],
        ClipboardCopyDestination::PrimarySelection => seq![Clipboard::PrimarySelection],
        ClipboardCopyDestination::ClipboardAndPrimarySelection => seq![
            Clipboard::Clipboard,
            Clipboard::PrimarySelection,
        ],
    }
}

/// Text goes to just those clipboards that its destination names, to each once, and to
/// the clipboard proper first.
pub proof fn law_where_copied_text_goes(destination: ClipboardCopyDestination)
    ensures
        clipboards_for(destination).contains(Clipboard::Clipboard) <==> destination
            != ClipboardCopyDestination::PrimarySelection,
        clipboards_for(destination).contains(Clipboard::PrimarySelection) <==> destination
            != ClipboardCopyDestination::Clipboard,
        clipboards_for(destination).no_duplicates(),
        destination == ClipboardCopyDestination::ClipboardAndPrimarySelection ==> clipboards_for(
            destination,
        )[0] == Clipboard::Clipboard,
{
    let list = clipboards_for(destination);
    assert(list.len() == 1 || list.len() == 2);
    assert(list.contains(list[0]));
    if list.len() == 2 {
        assert(list.contains(list[1]));
    }
}

/// What waits after an attempt to paste: text that the pane could not take comes last,
/// for the pane that it was meant for; text that was sent, or that could not be sent at
/// all, does not wait.
pub proof fn law_what_waits_after_a_paste(
    waiting: Seq<(PaneId, Seq<char>)>,
    attempt: PasteAttempt,
)
    ensures
        attempt.result == PasteResult::WouldBlock ==> {
            let after = after_paste(waiting, attempt);
            &&& after.len() == waiting.len() + 1
            &&& after.last() == (attempt.pane_id, attempt.text)
            &&& after.drop_last() == waiting
        },
        attempt.result == PasteResult::Sent || attempt.result == PasteResult::Failed
            ==> after_paste(waiting, attempt) == waiting,
{
    if attempt.result == PasteResult::WouldBlock {
        assert(after_paste(waiting, attempt).drop_last() =~= waiting);
    }
}

/// What waits is all that is queued, in its order.
pub proof fn law_all_that_is_queued_waits(queued: Seq<(PaneId, InputOp)>, i: int)
    requires
        0 <= i < queued.len(),
    ensures
        waiting(queued).len() == queued.len(),
        waiting(queued)[i].0 == queued[i].0,
        queued[i].1 matches InputOp::Paste(text) && waiting(queued)[i].1 == text@,
{
}

impl TermWindow {
    pub fn new() -> (window: Self)
        ensures
            window.queued@.len() == 0,
    {
        TermWindow { queued: Vec::new() }
    }

    /// What to put on which clipboard, in order.
    pub fn copy_to_clipboard(&self, clipboard: ClipboardCopyDestination, text: String) -> (writes:
        Vec<(Clipboard, String)>)
        ensures
            writes@.len() == clipboards_for(clipboard).len(),
            forall|i: int|
                0 <= i < writes@.len() ==> (#[trigger] writes@[i]).0 == clipboards_for(clipboard)[i]
                    && writes@[i].1@ == text@,
    {
        let mut writes: Vec<(Clipboard, String)> = Vec::new();
        match clipboard {
            ClipboardCopyDestination::Clipboard => {
                writes.push((Clipboard::Clipboard, text));
            },
            ClipboardCopyDestination::PrimarySelection => {
                writes.push((Clipboard::PrimarySelection, text));
            },
            ClipboardCopyDestination::ClipboardAndPrimarySelection => {
                writes.push((Clipboard::Clipboard, text.clone()));
                writes.push((Clipboard::PrimarySelection, text));
            },
        }
        writes
    }

    /// The clipboard to read for a paste.
    pub fn paste_source(clipboard: ClipboardPasteSource) -> (source: Clipboard)
        ensures
            source == (match clipboard {
                ClipboardPasteSource::Clipboard => Clipboard::Clipboard,
                ClipboardPasteSource::PrimarySelection => Clipboard::PrimarySelection,
            }),
    {
        match clipboard {
            ClipboardPasteSource::Clipboard => Clipboard::Clipboard,
            ClipboardPasteSource::PrimarySelection => Clipboard::PrimarySelection,
        }
    }

    /// The pane that takes the pasted text: what lies over the pane, or else the
    /// pane itself while it exists.
    pub fn paste_target(overlay: Option<PaneId>, pane: Option<PaneId>) -> (target: Option<PaneId>)
        ensures
            target == (if overlay is Some {
                overlay
            } else {
                pane
            }),
    {
        match overlay {
            Some(id) => Some(id),
            None => pane,
        }
    }

    /// Takes in how the paste of `clip` into the pane `pane_id` came out. Text
    /// that the pane could not take yet is kept, under the id of the pane that
    /// the paste was asked for, and sent again later.
    pub fn paste_from_clipboard(&mut self, pane_id: PaneId, clip: String, result: PasteResult) -> (
    report: bool)
        ensures
            report == (result == PasteResult::Failed),
            waiting(final(self).queued@) == after_paste(
                waiting(old(self).queued@),
                (PasteAttempt { pane_id, text: clip@, result }),
            ),
    {
        match result {
            PasteResult::Sent => false,
            PasteResult::WouldBlock => {
                self.queued.push((pane_id, InputOp::Paste(clip)));
                assert(waiting(self.queued@) =~= waiting(old(self).queued@).push(
                    (pane_id, clip@),
                ));
                false
            },
            PasteResult::Failed => true,
        }
    }
}

} // verus!
