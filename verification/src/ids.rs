//! The ids by which things are known.
use vstd::prelude::*;

verus! {

pub type PaneId = usize;

pub type TabId = usize;

pub type WindowId = usize;

pub type DomainId = usize;

pub type ClientId = usize;

pub type ThreadId = u64;

} // verus!
