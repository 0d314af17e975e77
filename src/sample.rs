use vstd::prelude::*;

verus! {

/// One labelled example: a feature vector and its one-hot target vector.
#[derive(Debug, Clone)]
pub struct Sample<T> {
    pub inputs: Vec<T>,
    pub expected: Vec<T>,
}

impl<T> Sample<T> {
    pub fn input_size(&self) -> (r: usize)
        ensures
            r == self.inputs.len(),
    {
        self.inputs.len()
    }

    pub fn output_size(&self) -> (r: usize)
        ensures
            r == self.expected.len(),
    {
        self.expected.len()
    }
}

/// Every sample has the same input length and the same target length.
pub open spec fn uniform_samples<T>(s: Seq<Sample<T>>) -> bool {
    forall|i: int, j: int|
        0 <= i < s.len() && 0 <= j < s.len() ==> {
            &&& (#[trigger] s[i]).inputs.len() == (#[trigger] s[j]).inputs.len()
            &&& s[i].expected.len() == s[j].expected.len()
        }
}

} // verus!
