//! The process-wide compiler state: an append-only collection of loaded
//! sources, queried by canonical path for deduplication.

use vstd::prelude::*;
use std::rc::Rc;
use crate::source::Source;

verus! {

pub struct CompilerState {
    pub sources: Vec<Rc<Source>>,
}

impl CompilerState {
    pub fn new() -> (r: CompilerState)
        ensures
            r.sources@ == Seq::<Rc<Source>>::empty(),
    {
        CompilerState { sources: Vec::new() }
    }
}

} // verus!
