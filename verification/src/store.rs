//! The tables of the multiplexer, and the elementary ways to read and change
//! them.
use crate::client::{duplicate_text, opt_text, ClientInfo};
use crate::domain::{Domain, DomainInfo};
use crate::id_map::{ascending, in_order, IdMap};
use crate::ids::{ClientId, DomainId, PaneId, TabId, ThreadId, WindowId};
use crate::name_map::NameMap;
use crate::notification::{deeds, Deed, Effect};
use crate::state::MuxState;
use crate::tab::{Pane, Tab};
use crate::window::Window;
use vstd::prelude::*;

verus! {

/// The multiplexer.
pub struct Mux {
    tabs: IdMap<Tab>,
    orphans: IdMap<Tab>,
    panes: IdMap<Pane>,
    dead: IdMap<()>,
    windows: IdMap<Window>,
    retry_scheduled: bool,
    default_domain: Option<Domain>,
    domains: IdMap<Domain>,
    domains_by_name: NameMap<Domain>,
    subscribers: Vec<usize>,
    next_subscriber: usize,
    banner: Option<String>,
    clients: IdMap<ClientInfo>,
    identity: Option<ClientId>,
    pane_counts: NameMap<usize>,
    main_thread: ThreadId,
    agent: bool,
    default_workspace: Option<String>,
    windows_locked: bool,
    current: bool,
    ending: bool,
    next_window: WindowId,
    effects: Vec<Effect>,
}

/// The contents of a domain that may be absent.
pub open spec fn opt_domain(domain: Option<Domain>) -> Option<DomainInfo> {
    match domain {
        Some(d) => Some(d@),
        None => None,
    }
}

impl View for Mux {
    type V = MuxState;

    closed spec fn view(&self) -> MuxState {
        MuxState {
            tabs: self.tabs@.map_values(|t: Tab| t@),
            orphans: self.orphans@.map_values(|t: Tab| t@),
            panes: self.panes@,
            dead: self.dead@.dom(),
            windows: self.windows@.map_values(|w: Window| w@),
            retry_scheduled: self.retry_scheduled,
            default_domain: opt_domain(self.default_domain),
            domains: self.domains@.map_values(|d: Domain| d@),
            domains_by_name: self.domains_by_name@.map_values(|d: Domain| d@),
            subscribers: self.subscribers@,
            next_subscriber: self.next_subscriber,
            banner: opt_text(self.banner),
            clients: self.clients@.map_values(|c: ClientInfo| c@),
            identity: self.identity,
            pane_counts: self.pane_counts@,
            main_thread: self.main_thread,
            agent: self.agent,
            default_workspace: opt_text(self.default_workspace),
            windows_locked: self.windows_locked,
            current: self.current,
            ending: self.ending,
            next_window: self.next_window,
            effects: deeds(self.effects@),
        }
    }
}

/// A multiplexer with nothing in it.
pub open spec fn empty_state(
    main_thread: ThreadId,
    agent: bool,
    default_workspace: Option<Seq<char>>,
) -> MuxState {
    MuxState {
        tabs: Map::empty(),
        orphans: Map::empty(),
        panes: Map::empty(),
        dead: Set::empty(),
        windows: Map::empty(),
        retry_scheduled: false,
        default_domain: None,
        domains: Map::empty(),
        domains_by_name: Map::empty(),
        subscribers: Seq::empty(),
        next_subscriber: 0,
        banner: None,
        clients: Map::empty(),
        identity: None,
        pane_counts: Map::empty(),
        main_thread,
        agent,
        default_workspace,
        windows_locked: false,
        current: false,
        ending: false,
        next_window: 0,
        effects: Seq::empty(),
    }
}

impl Mux {
    pub(crate) fn empty(
        main_thread: ThreadId,
        agent: bool,
        default_workspace: Option<String>,
    ) -> (mux: Self)
        ensures
            mux@ == empty_state(main_thread, agent, opt_text(default_workspace)),
    {
        let mux = Mux {
            tabs: IdMap::new(),
            orphans: IdMap::new(),
            panes: IdMap::new(),
            dead: IdMap::new(),
            windows: IdMap::new(),
            retry_scheduled: false,
            default_domain: None,
            domains: IdMap::new(),
            domains_by_name: NameMap::new(),
            subscribers: Vec::new(),
            next_subscriber: 0,
            banner: None,
            clients: IdMap::new(),
            identity: None,
            pane_counts: NameMap::new(),
            main_thread,
            agent,
            default_workspace,
            windows_locked: false,
            current: false,
            ending: false,
            next_window: 0,
            effects: Vec::new(),
        };
        assert(mux@ =~= empty_state(main_thread, agent, opt_text(default_workspace)));
        mux
    }

    // ---- tabs ----
    pub(crate) fn tab_ref(&self, id: TabId) -> (found: Option<&Tab>)
        ensures
            match found {
                Some(v) => self@.tabs.contains_key(id) && self@.tabs[id] == v@,
                None => !self@.tabs.contains_key(id),
            },
    {
        self.tabs.get(id)
    }

    pub(crate) fn tab_ids(&self) -> (ids: Vec<usize>)
        ensures
            ids@ == in_order(self@.tabs.dom()),
            ascending(ids@, self@.tabs.dom()),
            self@.tabs.dom().finite(),
    {
        proof {
            self.tabs.lemma_finite();
            assert(self@.tabs.dom() =~= self.tabs@.dom());
        }
        self.tabs.ids()
    }

    pub(crate) fn put_tab(&mut self, id: TabId, value: Tab)
        ensures
            final(self)@ == (MuxState {
                tabs: old(self)@.tabs.insert(id, value@),
                ..old(self)@
            }),
    {
        self.tabs.insert(id, value);
        assert(self@.tabs =~= old(self)@.tabs.insert(id, value@));
    }

    pub(crate) fn take_tab(&mut self, id: TabId) -> (taken: Option<Tab>)
        ensures
            final(self)@ == (MuxState { tabs: old(self)@.tabs.remove(id), ..old(self)@ }),
            match taken {
                Some(v) => old(self)@.tabs.contains_key(id) && old(self)@.tabs[id] == v@,
                None => !old(self)@.tabs.contains_key(id),
            },
    {
        let taken = self.tabs.remove(id);
        assert(self@.tabs =~= old(self)@.tabs.remove(id));
        taken
    }

    // ---- orphans ----
    pub(crate) fn orphan_ref(&self, id: TabId) -> (found: Option<&Tab>)
        ensures
            match found {
                Some(v) => self@.orphans.contains_key(id) && self@.orphans[id] == v@,
                None => !self@.orphans.contains_key(id),
            },
    {
        self.orphans.get(id)
    }

    pub(crate) fn orphan_ids(&self) -> (ids: Vec<usize>)
        ensures
            ids@ == in_order(self@.orphans.dom()),
            ascending(ids@, self@.orphans.dom()),
            self@.orphans.dom().finite(),
    {
        proof {
            self.orphans.lemma_finite();
            assert(self@.orphans.dom() =~= self.orphans@.dom());
        }
        self.orphans.ids()
    }

    pub(crate) fn put_orphan(&mut self, id: TabId, value: Tab)
        ensures
            final(self)@ == (MuxState {
                orphans: old(self)@.orphans.insert(id, value@),
                ..old(self)@
            }),
    {
        self.orphans.insert(id, value);
        assert(self@.orphans =~= old(self)@.orphans.insert(id, value@));
    }

    pub(crate) fn take_orphan(&mut self, id: TabId) -> (taken: Option<Tab>)
        ensures
            final(self)@ == (MuxState { orphans: old(self)@.orphans.remove(id), ..old(self)@ }),
            match taken {
                Some(v) => old(self)@.orphans.contains_key(id) && old(self)@.orphans[id] == v@,
                None => !old(self)@.orphans.contains_key(id),
            },
    {
        let taken = self.orphans.remove(id);
        assert(self@.orphans =~= old(self)@.orphans.remove(id));
        taken
    }

    // ---- windows ----
    pub(crate) fn window_ref(&self, id: WindowId) -> (found: Option<&Window>)
        ensures
            match found {
                Some(v) => self@.windows.contains_key(id) && self@.windows[id] == v@,
                None => !self@.windows.contains_key(id),
            },
    {
        self.windows.get(id)
    }

    pub(crate) fn window_ids(&self) -> (ids: Vec<usize>)
        ensures
            ids@ == in_order(self@.windows.dom()),
            ascending(ids@, self@.windows.dom()),
            self@.windows.dom().finite(),
    {
        proof {
            self.windows.lemma_finite();
            assert(self@.windows.dom() =~= self.windows@.dom());
        }
        self.windows.ids()
    }

    pub(crate) fn put_window(&mut self, id: WindowId, value: Window)
        ensures
            final(self)@ == (MuxState {
                windows: old(self)@.windows.insert(id, value@),
                ..old(self)@
            }),
    {
        self.windows.insert(id, value);
        assert(self@.windows =~= old(self)@.windows.insert(id, value@));
    }

    pub(crate) fn take_window(&mut self, id: WindowId) -> (taken: Option<Window>)
        ensures
            final(self)@ == (MuxState { windows: old(self)@.windows.remove(id), ..old(self)@ }),
            match taken {
                Some(v) => old(self)@.windows.contains_key(id) && old(self)@.windows[id] == v@,
                None => !old(self)@.windows.contains_key(id),
            },
    {
        let taken = self.windows.remove(id);
        assert(self@.windows =~= old(self)@.windows.remove(id));
        taken
    }

    // ---- clients ----
    pub(crate) fn client_ref(&self, id: ClientId) -> (found: Option<&ClientInfo>)
        ensures
            match found {
                Some(v) => self@.clients.contains_key(id) && self@.clients[id] == v@,
                None => !self@.clients.contains_key(id),
            },
    {
        self.clients.get(id)
    }

    pub(crate) fn client_ids(&self) -> (ids: Vec<usize>)
        ensures
            ids@ == in_order(self@.clients.dom()),
            ascending(ids@, self@.clients.dom()),
            self@.clients.dom().finite(),
    {
        proof {
            self.clients.lemma_finite();
            assert(self@.clients.dom() =~= self.clients@.dom());
        }
        self.clients.ids()
    }

    pub(crate) fn put_client(&mut self, id: ClientId, value: ClientInfo)
        ensures
            final(self)@ == (MuxState {
                clients: old(self)@.clients.insert(id, value@),
                ..old(self)@
            }),
    {
        self.clients.insert(id, value);
        assert(self@.clients =~= old(self)@.clients.insert(id, value@));
    }

    pub(crate) fn take_client(&mut self, id: ClientId) -> (taken: Option<ClientInfo>)
        ensures
            final(self)@ == (MuxState { clients: old(self)@.clients.remove(id), ..old(self)@ }),
            match taken {
                Some(v) => old(self)@.clients.contains_key(id) && old(self)@.clients[id] == v@,
                None => !old(self)@.clients.contains_key(id),
            },
    {
        let taken = self.clients.remove(id);
        assert(self@.clients =~= old(self)@.clients.remove(id));
        taken
    }

    // ---- domains ----
    pub(crate) fn domain_ref(&self, id: DomainId) -> (found: Option<&Domain>)
        ensures
            match found {
                Some(v) => self@.domains.contains_key(id) && self@.domains[id] == v@,
                None => !self@.domains.contains_key(id),
            },
    {
        self.domains.get(id)
    }

    pub(crate) fn domain_ids(&self) -> (ids: Vec<usize>)
        ensures
            ids@ == in_order(self@.domains.dom()),
            ascending(ids@, self@.domains.dom()),
            self@.domains.dom().finite(),
    {
        proof {
            self.domains.lemma_finite();
            assert(self@.domains.dom() =~= self.domains@.dom());
        }
        self.domains.ids()
    }

    pub(crate) fn put_domain(&mut self, id: DomainId, value: Domain)
        ensures
            final(self)@ == (MuxState {
                domains: old(self)@.domains.insert(id, value@),
                ..old(self)@
            }),
    {
        self.domains.insert(id, value);
        assert(self@.domains =~= old(self)@.domains.insert(id, value@));
    }

    // ---- panes ----
    pub(crate) fn pane_at(&self, id: PaneId) -> (found: Option<Pane>)
        ensures
            found == (if self@.panes.contains_key(id) {
                Some(self@.panes[id])
            } else {
                None
            }),
    {
        match self.panes.get(id) {
            Some(p) => Some(*p),
            None => None,
        }
    }

    pub(crate) fn pane_ids(&self) -> (ids: Vec<usize>)
        ensures
            ids@ == in_order(self@.panes.dom()),
            ascending(ids@, self@.panes.dom()),
            self@.panes.dom().finite(),
    {
        proof {
            self.panes.lemma_finite();
        }
        self.panes.ids()
    }

    pub(crate) fn put_pane(&mut self, id: PaneId, pane: Pane)
        ensures
            final(self)@ == (MuxState { panes: old(self)@.panes.insert(id, pane), ..old(self)@ }),
    {
        self.panes.insert(id, pane);
    }

    pub(crate) fn take_pane(&mut self, id: PaneId)
        ensures
            final(self)@ == (MuxState { panes: old(self)@.panes.remove(id), ..old(self)@ }),
    {
        let _ = self.panes.remove(id);
    }

    pub(crate) fn no_panes(&self) -> (none: bool)
        ensures
            none == self@.panes.dom().is_empty(),
    {
        self.panes.is_empty()
    }

    // ---- domains ----
    pub(crate) fn named_domain_ref(&self, name: &str) -> (found: Option<&Domain>)
        ensures
            match found {
                Some(d) => self@.domains_by_name.contains_key(name@)
                    && self@.domains_by_name[name@] == d@,
                None => !self@.domains_by_name.contains_key(name@),
            },
    {
        self.domains_by_name.get(name)
    }

    pub(crate) fn put_named_domain(&mut self, name: String, domain: Domain)
        ensures
            final(self)@ == (MuxState {
                domains_by_name: old(self)@.domains_by_name.insert(name@, domain@),
                ..old(self)@
            }),
    {
        self.domains_by_name.insert(name, domain);
        assert(self@.domains_by_name =~= old(self)@.domains_by_name.insert(name@, domain@));
    }

    pub(crate) fn domain_names(&self) -> (names: Vec<String>)
        ensures
            forall|i: int, j: int|
                0 <= i < names@.len() && 0 <= j < names@.len() && (#[trigger] names@[i])@ == (
                #[trigger] names@[j])@ ==> i == j,
            forall|name: Seq<char>|
                self@.domains_by_name.contains_key(name) <==> exists|i: int|
                    0 <= i < names@.len() && (#[trigger] names@[i])@ == name,
    {
        self.domains_by_name.names()
    }

    pub(crate) fn default_domain_ref(&self) -> (domain: Option<&Domain>)
        ensures
            match domain {
                Some(d) => self@.default_domain == Some(d@),
                None => self@.default_domain is None,
            },
    {
        match &self.default_domain {
            Some(d) => Some(d),
            None => None,
        }
    }

    pub(crate) fn put_default_domain(&mut self, domain: Domain)
        ensures
            final(self)@ == (MuxState { default_domain: Some(domain@), ..old(self)@ }),
    {
        self.default_domain = Some(domain);
    }

    // ---- dead panes ----
    pub(crate) fn pane_is_dead(&self, pane_id: PaneId) -> (dead: bool)
        ensures
            dead == self@.dead.contains(pane_id),
    {
        self.dead.get(pane_id).is_some()
    }

    pub(crate) fn put_dead(&mut self, pane_id: PaneId)
        ensures
            final(self)@ == (MuxState { dead: old(self)@.dead.insert(pane_id), ..old(self)@ }),
    {
        self.dead.insert(pane_id, ());
        assert(self@.dead =~= old(self)@.dead.insert(pane_id));
    }

    pub(crate) fn take_dead(&mut self, pane_id: PaneId)
        ensures
            final(self)@ == (MuxState { dead: old(self)@.dead.remove(pane_id), ..old(self)@ }),
    {
        let _ = self.dead.remove(pane_id);
        assert(self@.dead =~= old(self)@.dead.remove(pane_id));
    }

    // ---- counts ----
    pub(crate) fn count_of(&self, workspace: &str) -> (count: usize)
        ensures
            count == (if self@.pane_counts.contains_key(workspace@) {
                self@.pane_counts[workspace@]
            } else {
                0
            }),
    {
        match self.pane_counts.get(workspace) {
            Some(n) => *n,
            None => 0,
        }
    }

    pub(crate) fn put_counts(&mut self, counts: NameMap<usize>)
        ensures
            final(self)@ == (MuxState { pane_counts: counts@, ..old(self)@ }),
    {
        self.pane_counts = counts;
    }

    // ---- effects ----
    /// Asks the host to do something.
    pub(crate) fn ask(&mut self, effect: Effect)
        ensures
            final(self)@ == old(self)@.asked(effect@),
    {
        self.effects.push(effect);
        assert(deeds(self.effects@) =~= deeds(old(self).effects@).push(effect@));
    }

    /// Fetches what the host has been asked to do since the last time.
    pub fn take_effects(&mut self) -> (effects: Vec<Effect>)
        ensures
            deeds(effects@) == old(self)@.effects,
            final(self)@ == (MuxState { effects: Seq::empty(), ..old(self)@ }),
    {
        let mut effects: Vec<Effect> = Vec::new();
        std::mem::swap(&mut effects, &mut self.effects);
        assert(deeds(self.effects@) =~= Seq::empty());
        effects
    }

    // ---- everything else ----
    pub(crate) fn get_retry_scheduled(&self) -> (value: bool)
        ensures
            value == self@.retry_scheduled,
    {
        self.retry_scheduled
    }

    pub(crate) fn put_retry_scheduled(&mut self, value: bool)
        ensures
            final(self)@ == (MuxState { retry_scheduled: value, ..old(self)@ }),
    {
        self.retry_scheduled = value;
    }

    pub(crate) fn get_identity(&self) -> (value: Option<ClientId>)
        ensures
            value == self@.identity,
    {
        self.identity
    }

    pub(crate) fn put_identity(&mut self, value: Option<ClientId>)
        ensures
            final(self)@ == (MuxState { identity: value, ..old(self)@ }),
    {
        self.identity = value;
    }

    pub(crate) fn get_windows_locked(&self) -> (value: bool)
        ensures
            value == self@.windows_locked,
    {
        self.windows_locked
    }

    pub(crate) fn put_windows_locked(&mut self, value: bool)
        ensures
            final(self)@ == (MuxState { windows_locked: value, ..old(self)@ }),
    {
        self.windows_locked = value;
    }

    pub(crate) fn get_current(&self) -> (value: bool)
        ensures
            value == self@.current,
    {
        self.current
    }

    pub(crate) fn put_current(&mut self, value: bool)
        ensures
            final(self)@ == (MuxState { current: value, ..old(self)@ }),
    {
        self.current = value;
    }

    /// Whether the host has yet to fetch that a pane must end.
    pub(crate) fn kills_pending(&self) -> (pending: bool)
        ensures
            pending == exists|p: PaneId| #[trigger]
                self@.effects.contains(Deed::KillPane(p)),
    {
        let mut i: usize = 0;
        while i < self.effects.len()
            invariant
                i <= self.effects@.len(),
                forall|j: int|
                    0 <= j < i ==> !(#[trigger] self.effects@[j] is KillPane),
            decreases self.effects@.len() - i,
        {
            if let Effect::KillPane(p) = &self.effects[i] {
                assert(self@.effects[i as int] == Deed::KillPane(*p));
                assert(self@.effects.contains(Deed::KillPane(*p)));
                return true;
            }
            i = i + 1;
        }
        proof {
            assert forall|p: PaneId| !#[trigger] self@.effects.contains(Deed::KillPane(p)) by {
                if self@.effects.contains(Deed::KillPane(p)) {
                    let j = self@.effects.index_of(Deed::KillPane(p));
                    assert(self@.effects[j] == self.effects@[j]@);
                }
            }
        }
        false
    }

    pub(crate) fn get_ending(&self) -> (value: bool)
        ensures
            value == self@.ending,
    {
        self.ending
    }

    pub(crate) fn put_ending(&mut self, value: bool)
        ensures
            final(self)@ == (MuxState { ending: value, ..old(self)@ }),
    {
        self.ending = value;
    }

    pub(crate) fn get_next_window(&self) -> (value: WindowId)
        ensures
            value == self@.next_window,
    {
        self.next_window
    }

    pub(crate) fn put_next_window(&mut self, value: WindowId)
        ensures
            final(self)@ == (MuxState { next_window: value, ..old(self)@ }),
    {
        self.next_window = value;
    }

    pub(crate) fn get_next_subscriber(&self) -> (value: usize)
        ensures
            value == self@.next_subscriber,
    {
        self.next_subscriber
    }

    pub(crate) fn put_next_subscriber(&mut self, value: usize)
        ensures
            final(self)@ == (MuxState { next_subscriber: value, ..old(self)@ }),
    {
        self.next_subscriber = value;
    }

    pub(crate) fn get_main_thread(&self) -> (value: ThreadId)
        ensures
            value == self@.main_thread,
    {
        self.main_thread
    }

    pub(crate) fn get_agent(&self) -> (value: bool)
        ensures
            value == self@.agent,
    {
        self.agent
    }

    pub(crate) fn banner_copy(&self) -> (banner: Option<String>)
        ensures
            opt_text(banner) == self@.banner,
    {
        duplicate_text(&self.banner)
    }

    pub(crate) fn put_banner(&mut self, banner: Option<String>)
        ensures
            final(self)@ == (MuxState { banner: opt_text(banner), ..old(self)@ }),
    {
        self.banner = banner;
    }

    pub(crate) fn put_default_workspace(&mut self, name: Option<String>)
        ensures
            final(self)@ == (MuxState { default_workspace: opt_text(name), ..old(self)@ }),
    {
        self.default_workspace = name;
    }

    pub(crate) fn default_workspace_copy(&self) -> (name: Option<String>)
        ensures
            opt_text(name) == self@.default_workspace,
    {
        duplicate_text(&self.default_workspace)
    }

    pub(crate) fn subscriber_ids(&self) -> (ids: &Vec<usize>)
        ensures
            ids@ == self@.subscribers,
    {
        &self.subscribers
    }

    pub(crate) fn put_subscribers(&mut self, ids: Vec<usize>)
        ensures
            final(self)@ == (MuxState { subscribers: ids@, ..old(self)@ }),
    {
        self.subscribers = ids;
    }
}

} // verus!
