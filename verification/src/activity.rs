//! Activities that may yet produce a window. They are counted for the program as a
//! whole, whichever multiplexer they began with.
use vstd::prelude::*;

verus! {

/// How many activities are under way.
#[derive(Debug)]
pub struct Activities {
    count: usize,
}

impl View for Activities {
    type V = usize;

    closed spec fn view(&self) -> usize {
        self.count
    }
}

impl Activities {
    /// Nothing is under way.
    pub fn new() -> (activities: Self)
        ensures
            activities@ == 0,
    {
        Activities { count: 0 }
    }

    pub fn count(&self) -> (count: usize)
        ensures
            count == self@,
    {
        self.count
    }

    /// Something has begun that may yet produce a window: nothing is pruned until it
    /// has ended.
    pub fn begin(&mut self)
        requires
            old(self)@ < usize::MAX,
        ensures
            final(self)@ == old(self)@ + 1,
    {
        self.count = self.count + 1;
    }

    /// It has ended. The host has to look for dead windows soon.
    pub fn end(&mut self)
        requires
            old(self)@ > 0,
        ensures
            final(self)@ == old(self)@ - 1,
    {
        self.count = self.count - 1;
    }
}

} // verus!
