use vstd::prelude::*;

use crate::sample::Sample;

verus! {

/// A source of samples with random access by index.
///
/// Data loaders batch and shuffle through this interface alone, whatever
/// storage lies behind it.
pub trait Dataset<T> {
    /// The samples, in index order.
    spec fn samples(&self) -> Seq<Sample<T>>;

    fn len(&self) -> (r: usize)
        ensures
            r == self.samples().len(),
    ;

    fn is_empty(&self) -> (r: bool)
        ensures
            r == (self.samples().len() == 0),
    ;

    /// The sample at `index`, borrowed; nothing when `index` is out of range.
    fn get(&self, index: usize) -> (r: Option<&Sample<T>>)
        ensures
            (r is Some) == (index < self.samples().len()),
            r is Some ==> *r->0 == self.samples()[index as int],
    ;
}

} // verus!
