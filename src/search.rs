//! The `search` command. Its options are those of `list`; it does no search
//! yet and only reports what it was given.
use vstd::prelude::*;

verus! {

/// Options of the `search` command: the years to search, or all of them.
#[derive(Debug)]
pub struct Args {
    year: Option<Vec<u32>>,
}

impl Args {
    pub fn new(year: Option<Vec<u32>>) -> (r: Args)
        ensures
            r.year() == year,
    {
        Args { year }
    }

    pub closed spec fn year(&self) -> Option<Vec<u32>> {
        self.year
    }

    pub fn years(&self) -> (r: &Option<Vec<u32>>)
        ensures
            *r == self.year(),
    {
        &self.year
    }
}

} // verus!
