//! The multiplexer that the program uses. The host keeps it in a slot of its own
//! and hands that slot to the functions here.
use crate::client::opt_text;
use crate::error::MuxError;
use crate::host::Platform;
use crate::id_map::in_order;
use crate::ids::{PaneId, ThreadId};
use crate::notification::{Deed, ClipboardSelection, MuxNotification, Notice};
use crate::pruning::{lemma_all_killed, lemma_wf_kept};
use crate::state::MuxState;
use crate::store::Mux;
use vstd::prelude::*;

verus! {

/// How long panes on Windows get to react when they are told to end, in
/// milliseconds.
pub const SHUTDOWN_PAUSE_MS: u64 = 100;

/// The contents of a slot.
pub open spec fn in_slot(slot: Option<Mux>) -> Option<MuxState> {
    match slot {
        Some(mux) => Some(mux@),
        None => None,
    }
}

/// A slot whose contents, if any, are in order.
pub open spec fn slot_wf(slot: Option<Mux>) -> bool {
    match slot {
        Some(mux) => mux@.wf(),
        None => true,
    }
}

impl MuxState {
    /// All panes are told to end. The multiplexer stays in use while they react.
    pub open spec fn shutdown_begun(self) -> MuxState {
        MuxState { ending: true, ..self.all_killed(in_order(self.panes.dom())) }
    }

    /// Whether the multiplexer may go out of use: its panes have been told to end,
    /// and the host has fetched that.
    pub open spec fn may_be_cleared(self) -> bool {
        self.ending && forall|p: PaneId| !#[trigger] self.effects.contains(Deed::KillPane(p))
    }
}

/// A multiplexer may be cleared exactly if its panes have been told to end and no such
/// order is still to be fetched by the host, be it of this or of an earlier time.
pub proof fn law_when_a_multiplexer_may_go(s: MuxState, i: int)
    ensures
        !s.ending ==> !s.may_be_cleared(),
        0 <= i < s.effects.len() && s.effects[i] is KillPane ==> !s.may_be_cleared(),
        s.ending && (forall|j: int|
            0 <= j < s.effects.len() ==> !((#[trigger] s.effects[j]) is KillPane))
            ==> s.may_be_cleared(),
{
    if 0 <= i < s.effects.len() && s.effects[i] is KillPane {
        assert(s.effects.contains(Deed::KillPane(s.effects[i]->KillPane_0)));
    }
}

/// How an output notice got on its way.
pub enum OutputSent {
    /// The subscribers are being told.
    Told,
    /// The host has to deliver this from the main thread.
    TellOnMainThread(MuxNotification),
    /// The pane is gone: reading has to stop.
    PaneGone,
}

impl Mux {
    /// Puts a multiplexer in use. Gives back the one that was in use before.
    pub fn set_mux(slot: &mut Option<Mux>, mux: Mux) -> (before: Option<Mux>)
        ensures
            in_slot(*final(slot)) == Some(MuxState { current: true, ..mux@ }),
            in_slot(before) == (match in_slot(*old(slot)) {
                Some(s) => Some(MuxState { current: false, ..s }),
                None => None,
            }),
            mux@.wf() ==> slot_wf(*final(slot)),
            slot_wf(*old(slot)) ==> slot_wf(before),
    {
        let ghost fresh = mux@;
        let before = slot.take();
        let mut mux = mux;
        mux.put_current(true);
        proof {
            lemma_wf_kept(fresh, mux@);
        }
        *slot = Some(mux);
        match before {
            None => None,
            Some(mut replaced) => {
                let ghost was = replaced@;
                replaced.put_current(false);
                proof {
                    lemma_wf_kept(was, replaced@);
                }
                Some(replaced)
            },
        }
    }

    /// The multiplexer in use, if there is one.
    pub fn try_get(slot: &Option<Mux>) -> (mux: Option<&Mux>)
        ensures
            match mux {
                Some(m) => in_slot(*slot) == Some(m@),
                None => in_slot(*slot) is None,
            },
    {
        match slot {
            Some(mux) => Some(mux),
            None => None,
        }
    }

    /// The multiplexer in use.
    pub fn get(slot: &Option<Mux>) -> (mux: &Mux)
        requires
            slot is Some,
        ensures
            in_slot(*slot) == Some(mux@),
    {
        slot.as_ref().unwrap()
    }

    /// Tells all panes of the multiplexer in use to end, as the first step of taking
    /// it out of use. Gives back how long to wait, once the host has passed that on,
    /// before `shutdown`; nothing if no multiplexer is in use.
    pub fn begin_shutdown(slot: &mut Option<Mux>, platform: Platform) -> (pause_ms: Option<u64>)
        requires
            slot_wf(*old(slot)),
        ensures
            slot_wf(*final(slot)),
            match in_slot(*old(slot)) {
                Some(s) => {
                    &&& in_slot(*final(slot)) == Some(s.shutdown_begun())
                    &&& pause_ms == Some(
                        if platform == Platform::Windows {
                            100u64
                        } else {
                            0
                        },
                    )
                },
                None => in_slot(*final(slot)) is None && pause_ms is None,
            },
    {
        match slot.take() {
            None => None,
            Some(mut mux) => {
                let ghost s = mux@;
                let ids = mux.pane_ids();
                mux.kill_panes(&ids);
                mux.put_ending(true);
                proof {
                    lemma_all_killed(s, ids@);
                    lemma_wf_kept(s, mux@);
                }
                *slot = Some(mux);
                if platform == Platform::Windows {
                    Some(SHUTDOWN_PAUSE_MS)
                } else {
                    Some(0)
                }
            },
        }
    }

    /// Takes the multiplexer out of use, as the last step: its panes must have been
    /// told to end, and the host must have passed that on.
    pub fn shutdown(slot: &mut Option<Mux>) -> (ended: Option<Mux>)
        requires
            slot_wf(*old(slot)),
            in_slot(*old(slot)) matches Some(s) ==> s.may_be_cleared(),
        ensures
            in_slot(*final(slot)) is None,
            in_slot(ended) == (match in_slot(*old(slot)) {
                Some(s) => Some(MuxState { current: false, ..s }),
                None => None,
            }),
            slot_wf(ended),
    {
        match slot.take() {
            None => None,
            Some(mut mux) => {
                let ghost s = mux@;
                mux.put_current(false);
                proof {
                    lemma_wf_kept(s, mux@);
                }
                Some(mux)
            },
        }
    }

    /// Whether the panes of the multiplexer have been told to end, and the host has
    /// fetched that.
    pub fn may_shut_down(&self) -> (may: bool)
        ensures
            may == self@.may_be_cleared(),
    {
        self.get_ending() && !self.kills_pending()
    }

    /// Tells the subscribers something, from whatever thread. Off the main thread,
    /// or while no multiplexer is in use, the host gets the notification back and
    /// has to deliver it from the main thread.
    pub fn notify_from_any_thread(
        slot: &mut Option<Mux>,
        notification: MuxNotification,
        thread: ThreadId,
    ) -> (later: Option<MuxNotification>)
        ensures
            ({
                let now = in_slot(*old(slot)) matches Some(s) && s.main_thread == thread;
                &&& now ==> {
                    &&& later is None
                    &&& in_slot(*final(slot)) == Some(
                        in_slot(*old(slot))->0.notified(notification@),
                    )
                }
                &&& !now ==> {
                    &&& later == Some(notification)
                    &&& in_slot(*final(slot)) == in_slot(*old(slot))
                }
            }),
            slot_wf(*old(slot)) ==> slot_wf(*final(slot)),
    {
        let now = match Mux::try_get(slot) {
            Some(mux) => mux.is_main_thread(thread),
            None => false,
        };
        if now {
            Mux::deliver(slot, notification);
            None
        } else {
            Some(notification)
        }
    }

    /// Tells the subscribers of the multiplexer in use, if there is one.
    pub fn deliver(slot: &mut Option<Mux>, notification: MuxNotification)
        ensures
            in_slot(*final(slot)) == (match in_slot(*old(slot)) {
                Some(s) => Some(s.notified(notification@)),
                None => None,
            }),
            slot_wf(*old(slot)) ==> slot_wf(*final(slot)),
    {
        match slot.take() {
            Some(mut mux) => {
                mux.notify(notification);
                *slot = Some(mux);
            },
            None => {},
        }
    }

    /// Once a pane has been given what was parsed from its output, tells the
    /// subscribers. `pane` is the pane if it is still there.
    pub fn send_actions_to_mux(slot: &mut Option<Mux>, pane: Option<PaneId>, thread: ThreadId) -> (
    sent: OutputSent)
        ensures
            match pane {
                None => sent is PaneGone && in_slot(*final(slot)) == in_slot(*old(slot)),
                Some(p) => if in_slot(*old(slot)) matches Some(s) && s.main_thread == thread {
                    &&& sent is Told
                    &&& in_slot(*final(slot)) == Some(
                        in_slot(*old(slot))->0.notified(Notice::PaneOutput(p)),
                    )
                } else {
                    &&& sent == OutputSent::TellOnMainThread(MuxNotification::PaneOutput(p))
                    &&& in_slot(*final(slot)) == in_slot(*old(slot))
                },
            },
            slot_wf(*old(slot)) ==> slot_wf(*final(slot)),
    {
        match pane {
            None => OutputSent::PaneGone,
            Some(pane_id) => match Mux::notify_from_any_thread(
                slot,
                MuxNotification::PaneOutput(pane_id),
                thread,
            ) {
                None => OutputSent::Told,
                Some(notification) => OutputSent::TellOnMainThread(notification),
            },
        }
    }
}

/// The clipboard as a pane sees it.
#[derive(Clone, Copy, Debug, PartialEq, Eq, Structural)]
pub struct MuxClipboard {
    pub pane_id: PaneId,
}

impl MuxClipboard {
    /// Puts text on a clipboard, or clears it. Fails if no multiplexer is in use.
    pub fn set_contents(
        &self,
        slot: &mut Option<Mux>,
        selection: ClipboardSelection,
        clipboard: Option<String>,
    ) -> (done: Result<(), MuxError>)
        ensures
            match in_slot(*old(slot)) {
                Some(s) => done is Ok && in_slot(*final(slot)) == Some(
                    s.notified(
                        Notice::AssignClipboard {
                            pane_id: self.pane_id,
                            selection,
                            clipboard: opt_text(clipboard),
                        },
                    ),
                ),
                None => {
                    &&& done matches Err(e) && e == MuxError::NoMux
                    &&& in_slot(*final(slot)) is None
                },
            },
            slot_wf(*old(slot)) ==> slot_wf(*final(slot)),
    {
        if Mux::try_get(slot).is_none() {
            return Err(MuxError::NoMux);
        }
        Mux::deliver(
            slot,
            MuxNotification::AssignClipboard { pane_id: self.pane_id, selection, clipboard },
        );
        Ok(())
    }
}

/// What a pane saves its downloads with.
#[derive(Clone, Copy, Debug, PartialEq, Eq, Structural)]
pub struct MuxDownloader;

impl MuxDownloader {
    /// Hands a download to the subscribers; it is lost if no multiplexer is in use.
    pub fn save_to_downloads(&self, slot: &mut Option<Mux>, name: Option<String>, data: Vec<u8>)
        ensures
            in_slot(*final(slot)) == (match in_slot(*old(slot)) {
                Some(s) => Some(
                    s.notified(
                        Notice::SaveToDownloads { name: opt_text(name), data: data@ },
                    ),
                ),
                None => None,
            }),
            slot_wf(*old(slot)) ==> slot_wf(*final(slot)),
    {
        Mux::deliver(slot, MuxNotification::SaveToDownloads { name, data });
    }
}

} // verus!
