//! Domains: the places in which panes run.
use crate::ids::DomainId;
use vstd::prelude::*;

verus! {

/// A domain.
pub struct Domain {
    pub domain_id: DomainId,
    pub domain_name: String,
    /// Whether the domain can be left without ending what runs in it.
    pub detachable: bool,
}

/// What a domain is.
#[verifier::ext_equal]
pub struct DomainInfo {
    pub domain_id: DomainId,
    pub domain_name: Seq<char>,
    pub detachable: bool,
}

impl View for Domain {
    type V = DomainInfo;

    open spec fn view(&self) -> DomainInfo {
        DomainInfo {
            domain_id: self.domain_id,
            domain_name: self.domain_name@,
            detachable: self.detachable,
        }
    }
}

impl Domain {
    pub fn duplicate(&self) -> (domain: Self)
        ensures
            domain == *self,
    {
        Domain {
            domain_id: self.domain_id,
            domain_name: self.domain_name.clone(),
            detachable: self.detachable,
        }
    }
}

/// Whether a domain is connected.
#[derive(Clone, Copy, Debug, PartialEq, Eq, Structural)]
pub enum DomainState {
    Detached,
    Attached,
}

/// The domain in which something is to be started.
pub enum SpawnTabDomain {
    DefaultDomain,
    CurrentPaneDomain,
    DomainId(DomainId),
    DomainName(String),
}

} // verus!
