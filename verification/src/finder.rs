//! The broad phase of the search: candidate lines, as a line search reports
//! them.

use vstd::prelude::*;

use crate::Error;
use crate::finder::rg::parse_rg_output;

pub mod parse;
pub mod rg;

pub use rg::PossibleTodosInFile;

verus! {

/// The broad phase of the search for todos.
pub struct FileSearcher;

/// The bytes of all the outputs, one after the other.
pub open spec fn all_bytes(outputs: Seq<Vec<u8>>) -> Seq<u8>
    decreases outputs.len(),
{
    if outputs.len() == 0 {
        Seq::empty()
    } else {
        all_bytes(outputs.drop_last()) + outputs.last()@
    }
}

impl FileSearcher {
    /// Finds the places of possible todos in the outputs of the line search,
    /// one output for each tag pattern: the outputs are read as one, one
    /// behind the other.
    pub fn find(outputs: &[Vec<u8>]) -> (r: Result<Vec<PossibleTodosInFile>, Error>)
        ensures
            rg::parsed_as(all_bytes(outputs@), r),
    {
        let mut all: Vec<u8> = Vec::new();
        let mut k: usize = 0;
        assert(outputs@.take(0) =~= Seq::<Vec<u8>>::empty());
        while k < outputs.len()
            invariant
                k <= outputs@.len(),
                all@ == all_bytes(outputs@.take(k as int)),
            decreases outputs@.len() - k,
        {
            assert(outputs@.take(k + 1).drop_last() =~= outputs@.take(k as int));
            all.extend_from_slice(outputs[k].as_slice());
            k += 1;
        }
        assert(outputs@.take(k as int) =~= outputs@);
        parse_rg_output(all.as_slice())
    }
}



} // verus!
