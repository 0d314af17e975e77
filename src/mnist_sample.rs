//! One line of the sample format: `label,pixel,pixel,...`, where the label is
//! a class number and each pixel a byte value.
use vstd::prelude::*;
use vstd::string::StringSliceAdditionalSpecFns;

use crate::sample::Sample;
use crate::text::{split_bytes, parse_unsigned, split_on, value_within, COMMA};

verus! {

/// Number of classes a label may name, and so the width of a target vector.
pub const NUM_CLASSES: usize = 10;

/// Why a line does not hold a sample.
#[derive(Debug, Clone, Copy, PartialEq, Eq, Structural)]
pub enum SampleParseError {
    /// The line has no comma between the label and the features.
    FailedSplit,
    /// The label is not an unsigned decimal.
    ExpectedParseError,
    /// A feature is not a decimal byte value.
    FeatureParseError,
    /// The label names no class.
    LabelOutOfRange,
}

/// A parsed line: its class label and raw pixel bytes.
#[derive(Debug, Clone)]
pub struct MnistSample {
    pub label: usize,
    pub pixels: Vec<u8>,
}

pub open spec fn pixel_value(field: Seq<u8>) -> u8 {
    (value_within(field, 255)->0) as u8
}

/// What a line holds: its label and pixels, or the first problem found
/// (the features are read before the label).
pub open spec fn line_record(line: Seq<u8>) -> Result<(nat, Seq<u8>), SampleParseError> {
    let f = split_on(line, COMMA);
    if f.len() < 2 {
        Err(SampleParseError::FailedSplit)
    } else if exists|k: int| 1 <= k < f.len() && value_within(#[trigger] f[k], 255) is None {
        Err(SampleParseError::FeatureParseError)
    } else {
        match value_within(f[0], usize::MAX as nat) {
            None => Err(SampleParseError::ExpectedParseError),
            Some(v) => if v < NUM_CLASSES {
                Ok((v, Seq::new((f.len() - 1) as nat, |k: int| pixel_value(f[k + 1]))))
            } else {
                Err(SampleParseError::LabelOutOfRange)
            },
        }
    }
}

/// `s` is the sample for a record with `label` and `pixels`: each input is
/// what `scale` gives for its pixel, and the target is one-hot at `label`.
pub open spec fn encodes<T, F: Fn(u8) -> T>(
    s: Sample<T>,
    label: nat,
    pixels: Seq<u8>,
    scale: F,
    zero: T,
    one: T,
) -> bool {
    &&& s.inputs.len() == pixels.len()
    &&& forall|j: int| 0 <= j < pixels.len() ==> call_ensures(scale, (pixels[j],), #[trigger] s.inputs[j])
    &&& s.expected.len() == NUM_CLASSES
    &&& forall|j: int| 0 <= j < NUM_CLASSES ==> #[trigger] s.expected[j] == if j == label {
        one
    } else {
        zero
    }
}

impl MnistSample {
    pub fn size(&self) -> (r: usize)
        ensures
            r == self.pixels.len(),
    {
        self.pixels.len()
    }

    /// Reads one line of the sample format.
    pub fn parse(line: &[u8]) -> (r: Result<MnistSample, SampleParseError>)
        ensures
            match line_record(line@) {
                Ok((label, pixels)) => r is Ok && r->Ok_0.label == label && r->Ok_0.pixels@
                    == pixels,
                Err(e) => r == Err::<MnistSample, SampleParseError>(e),
            },
    {
        let fields = split_bytes(line, COMMA);
        let ghost f = split_on(line@, COMMA);
        if fields.len() < 2 {
            return Err(SampleParseError::FailedSplit);
        }
        let mut pixels: Vec<u8> = Vec::new();
        let mut k: usize = 1;
        while k < fields.len()
            invariant
                f == split_on(line@, COMMA),
                fields.len() == f.len() >= 2,
                forall|j: int| 0 <= j < fields.len() ==> #[trigger] fields[j]@ == f[j],
                1 <= k <= fields.len(),
                pixels.len() == k - 1,
                forall|j: int| 1 <= j < k ==> value_within(#[trigger] f[j], 255) is Some,
                forall|j: int| 0 <= j < k - 1 ==> #[trigger] pixels[j] == pixel_value(f[j + 1]),
            decreases fields.len() - k,
        {
            match parse_unsigned(fields[k].as_slice(), 255) {
                None => {
                    assert(value_within(f[k as int], 255) is None);
                    assert(exists|j: int|
                        1 <= j < f.len() && value_within(#[trigger] f[j], 255) is None);
                    return Err(SampleParseError::FeatureParseError);
                },
                Some(v) => {
                    pixels.push(v as u8);
                },
            }
            k = k + 1;
        }
        assert(pixels@ =~= Seq::new((f.len() - 1) as nat, |k: int| pixel_value(f[k + 1])));
        match parse_unsigned(fields[0].as_slice(), usize::MAX) {
            None => Err(SampleParseError::ExpectedParseError),
            Some(label) => {
                if label < NUM_CLASSES {
                    Ok(MnistSample { label, pixels })
                } else {
                    Err(SampleParseError::LabelOutOfRange)
                }
            },
        }
    }

    /// The sample for this record: each pixel through `scale`, and a target
    /// that is `one` at the label and `zero` elsewhere.
    pub fn to_sample<T: Copy, F: Fn(u8) -> T>(&self, scale: &F, zero: T, one: T) -> (r: Sample<T>)
        requires
            self.label < NUM_CLASSES,
            forall|v: u8| scale.requires((v,)),
        ensures
            encodes(r, self.label as nat, self.pixels@, *scale, zero, one),
    {
        let mut inputs: Vec<T> = Vec::new();
        let mut j: usize = 0;
        while j < self.pixels.len()
            invariant
                forall|v: u8| scale.requires((v,)),
                j <= self.pixels.len(),
                inputs.len() == j,
                forall|i: int| 0 <= i < j ==> call_ensures(*scale, (self.pixels[i],), #[trigger] inputs[i]),
            decreases self.pixels.len() - j,
        {
            let x = scale(self.pixels[j]);
            inputs.push(x);
            j = j + 1;
        }
        let mut expected: Vec<T> = Vec::new();
        let mut c: usize = 0;
        while c < NUM_CLASSES
            invariant
                c <= NUM_CLASSES,
                expected.len() == c,
                forall|i: int| 0 <= i < c ==> #[trigger] expected[i] == if i == self.label {
                    one
                } else {
                    zero
                },
            decreases NUM_CLASSES - c,
        {
            if c == self.label {
                expected.push(one);
            } else {
                expected.push(zero);
            }
            c = c + 1;
        }
        Sample { inputs, expected }
    }
}

impl std::str::FromStr for MnistSample {
    type Err = SampleParseError;

    fn from_str(s: &str) -> (r: Result<Self, Self::Err>)
        ensures
            match line_record(s.spec_bytes()) {
                Ok((label, pixels)) => r is Ok && r->Ok_0.label == label && r->Ok_0.pixels@
                    == pixels,
                Err(e) => r == Err::<MnistSample, SampleParseError>(e),
            },
    {
        MnistSample::parse(s.as_bytes())
    }
}

} // verus!
