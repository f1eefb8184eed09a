//! The domains that the multiplexer knows.
use crate::client::opt_text;
use crate::domain::{Domain, DomainInfo, SpawnTabDomain};
use crate::error::MuxError;
use crate::ids::{DomainId, PaneId, TabId, ThreadId, WindowId};
use crate::pruning::lemma_wf_kept;
use crate::state::MuxState;
use crate::store::{empty_state, opt_domain, Mux};
use vstd::prelude::*;

verus! {

/// A multiplexer that has just been made.
pub open spec fn new_state(
    default_domain: Option<DomainInfo>,
    agent: bool,
    default_workspace: Option<Seq<char>>,
    main_thread: ThreadId,
) -> MuxState {
    let empty = empty_state(main_thread, agent, default_workspace);
    match default_domain {
        Some(domain) => empty.domain_added(domain),
        None => empty,
    }
}

proof fn lemma_domain_added(s: MuxState, domain: DomainInfo)
    requires
        s.wf(),
    ensures
        s.domain_added(domain).wf(),
{
    let after = s.domain_added(domain);
    assert forall|w: WindowId, t: TabId| #[trigger] after.lists_in(w, t) implies after.knows_tab(
        t,
    ) by {
        assert(s.lists_in(w, t));
        assert(s.knows_tab(t));
    }
    assert(after.sound());
    lemma_wf_kept(s, after);
}

impl Mux {
    /// A multiplexer with nothing in it but its default domain, if it has one.
    /// `agent` says whether an agent follows the clients around, and
    /// `default_workspace` which workspace to start in; `main_thread` is the
    /// current thread.
    pub fn new(
        default_domain: Option<Domain>,
        agent: bool,
        default_workspace: Option<String>,
        main_thread: ThreadId,
    ) -> (mux: Self)
        ensures
            mux@ == new_state(
                opt_domain(default_domain),
                agent,
                opt_text(default_workspace),
                main_thread,
            ),
            mux@.wf(),
    {
        let mut mux = Mux::empty(main_thread, agent, default_workspace);
        assert(mux@.wf());
        if let Some(domain) = default_domain {
            mux.add_domain(&domain);
        }
        mux
    }

    /// The domain in which things are started by default.
    pub fn default_domain(&self) -> (domain: Domain)
        requires
            self@.default_domain is Some,
        ensures
            Some(domain@) == self@.default_domain,
    {
        self.default_domain_ref().unwrap().duplicate()
    }

    pub fn set_default_domain(&mut self, domain: &Domain)
        ensures
            final(self)@ == (MuxState { default_domain: Some(domain@), ..old(self)@ }),
            old(self)@.wf() ==> final(self)@.wf(),
    {
        let ghost s = self@;
        self.put_default_domain(domain.duplicate());
        proof {
            lemma_wf_kept(s, self@);
        }
    }

    pub fn get_domain(&self, id: DomainId) -> (domain: Option<&Domain>)
        ensures
            match domain {
                Some(d) => self@.domains.contains_key(id) && d@ == self@.domains[id],
                None => !self@.domains.contains_key(id),
            },
    {
        self.domain_ref(id)
    }

    pub fn get_domain_by_name(&self, name: &str) -> (domain: Option<&Domain>)
        ensures
            match domain {
                Some(d) => self@.domains_by_name.contains_key(name@) && d@
                    == self@.domains_by_name[name@],
                None => !self@.domains_by_name.contains_key(name@),
            },
    {
        self.named_domain_ref(name)
    }

    /// Makes a domain known under its id and its name. The first one becomes the
    /// default domain.
    pub fn add_domain(&mut self, domain: &Domain)
        requires
            old(self)@.wf(),
        ensures
            final(self)@ == old(self)@.domain_added(domain@),
            final(self)@.wf(),
    {
        proof {
            lemma_domain_added(self@, domain@);
        }
        if self.default_domain_ref().is_none() {
            self.put_default_domain(domain.duplicate());
        }
        self.put_domain(domain.domain_id, domain.duplicate());
        self.put_named_domain(domain.domain_name.clone(), domain.duplicate());
    }

    /// Whether there is a domain in which things are started by default.
    pub fn has_default_domain(&self) -> (has: bool)
        ensures
            has == (self@.default_domain is Some),
    {
        self.default_domain_ref().is_some()
    }

    /// Whether `resolve_spawn_tab_domain` may be asked: there is a default domain
    /// where it comes to that, and the domain of the current pane is known.
    pub fn can_resolve_spawn_tab_domain(
        &self,
        pane_id: Option<PaneId>,
        domain: &SpawnTabDomain,
    ) -> (can: bool)
        ensures
            can == self@.can_choose(pane_id, *domain),
    {
        match domain {
            SpawnTabDomain::DefaultDomain => self.has_default_domain(),
            SpawnTabDomain::CurrentPaneDomain => match pane_id {
                Some(pane_id) => match self.resolve_pane_id(pane_id) {
                    Some((domain_id, _, _)) => self.domain_ref(domain_id).is_some(),
                    None => true,
                },
                None => self.has_default_domain(),
            },
            _ => true,
        }
    }

    /// Finds the domain in which something is to be started.
    pub fn resolve_spawn_tab_domain(
        &self,
        pane_id: Option<PaneId>,
        domain: &SpawnTabDomain,
    ) -> (found: Result<Domain, MuxError>)
        requires
            self@.can_choose(pane_id, *domain),
        ensures
            match found {
                Ok(d) => self@.chosen_domain(pane_id, *domain) == Some(d@),
                Err(e) => {
                    &&& self@.chosen_domain(pane_id, *domain) is None
                    &&& self@.explains_choice(pane_id, *domain, e)
                },
            },
    {
        match domain {
            SpawnTabDomain::DefaultDomain => Ok(self.default_domain()),
            SpawnTabDomain::CurrentPaneDomain => match pane_id {
                Some(pane_id) => match self.resolve_pane_id(pane_id) {
                    None => Err(MuxError::PaneIdInvalid(pane_id)),
                    Some((domain_id, _, _)) => Ok(self.domain_ref(domain_id).unwrap().duplicate()),
                },
                None => Ok(self.default_domain()),
            },
            SpawnTabDomain::DomainId(domain_id) => match self.domain_ref(*domain_id) {
                Some(d) => Ok(d.duplicate()),
                None => Err(MuxError::DomainIdInvalid(*domain_id)),
            },
            SpawnTabDomain::DomainName(name) => match self.named_domain_ref(name.as_str()) {
                Some(d) => Ok(d.duplicate()),
                None => {
                    let possible = self.domain_names();
                    Err(MuxError::DomainNameInvalid { name: name.clone(), possible })
                },
            },
        }
    }
}

/// A domain that has been added is found under its id and under its name, and the
/// default domain stays what it was unless there was none.
pub proof fn law_added_domains_are_found(s: MuxState, domain: DomainInfo)
    ensures
        s.domain_added(domain).domains.contains_key(domain.domain_id),
        s.domain_added(domain).domains[domain.domain_id] == domain,
        s.domain_added(domain).domains_by_name.contains_key(domain.domain_name),
        s.domain_added(domain).domains_by_name[domain.domain_name] == domain,
        s.domain_added(domain).default_domain == (if s.default_domain is Some {
            s.default_domain
        } else {
            Some(domain)
        }),
{
}

} // verus!
