use vstd::prelude::*;

verus! {

/// An error that may be encountered while attempting to parse an OBJ.
///
/// Every error is fatal to the whole parse: the first fault encountered is
/// returned and no partial model is produced. Acquiring the input text is
/// outside this crate, so failures of that kind are not represented here.
#[derive(Clone, Copy, Debug, PartialEq, Eq, Structural)]
pub enum Error {
    /// Expected a term on the given line but no term was found instead.
    ExpectedTerm(usize),
    /// Expected an index on the given line but something else was found.
    ExpectedIdx(usize),
    /// Expected an object or group name on the given line but something else
    /// was found instead.
    ExpectedName(usize),
    /// An invalid index was encountered, carrying the offending value.
    InvalidIndex(isize),
}

} // verus!
