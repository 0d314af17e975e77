//! A dataset read from text in the sample format, one sample per line.
use vstd::prelude::*;
use vstd::string::StringSliceAdditionalSpecFns;

use crate::dataset::Dataset;
use crate::mnist_sample::{encodes, line_record, MnistSample, SampleParseError, NUM_CLASSES};
use crate::sample::{uniform_samples, Sample};
use crate::text::{split_lines, text_lines};

verus! {

/// Why a text does not make a dataset.
#[derive(Debug, Clone, Copy, PartialEq, Eq, Structural)]
pub enum CsvLoadError {
    /// A line has no comma between the label and the features.
    FailedSplit,
    /// A label is not an unsigned decimal.
    ExpectedParseError,
    /// A feature is not a decimal byte value.
    FeatureParseError,
    /// A label names no class.
    LabelOutOfRange,
    /// Two lines hold different numbers of features.
    UnevenSampleSizes,
}

pub open spec fn load_error(e: SampleParseError) -> CsvLoadError {
    match e {
        SampleParseError::FailedSplit => CsvLoadError::FailedSplit,
        SampleParseError::ExpectedParseError => CsvLoadError::ExpectedParseError,
        SampleParseError::FeatureParseError => CsvLoadError::FeatureParseError,
        SampleParseError::LabelOutOfRange => CsvLoadError::LabelOutOfRange,
    }
}

/// The records of the lines, in order, or the error of the first line that
/// holds none.
pub open spec fn records_of(lines: Seq<Seq<u8>>) -> Result<Seq<(nat, Seq<u8>)>, SampleParseError>
    decreases lines.len(),
{
    if lines.len() == 0 {
        Ok(Seq::empty())
    } else {
        match records_of(lines.drop_last()) {
            Err(e) => Err(e),
            Ok(rs) => match line_record(lines.last()) {
                Err(e) => Err(e),
                Ok(r) => Ok(rs.push(r)),
            },
        }
    }
}

pub open spec fn uniform_records(rs: Seq<(nat, Seq<u8>)>) -> bool {
    forall|i: int, j: int|
        0 <= i < rs.len() && 0 <= j < rs.len() ==> (#[trigger] rs[i]).1.len() == (
        #[trigger] rs[j]).1.len()
}

/// The records that a text holds, or why it holds no dataset.
pub open spec fn csv_records(text: Seq<u8>) -> Result<Seq<(nat, Seq<u8>)>, CsvLoadError> {
    match records_of(text_lines(text)) {
        Err(e) => Err(load_error(e)),
        Ok(rs) => if uniform_records(rs) {
            Ok(rs)
        } else {
            Err(CsvLoadError::UnevenSampleSizes)
        },
    }
}

proof fn lemma_records_err_extends(lines: Seq<Seq<u8>>, i: int)
    requires
        0 <= i <= lines.len(),
        records_of(lines.take(i)) is Err,
    ensures
        records_of(lines) == records_of(lines.take(i)),
    decreases lines.len(),
{
    if i < lines.len() {
        assert(lines.take(i) =~= lines.drop_last().take(i));
        lemma_records_err_extends(lines.drop_last(), i);
    } else {
        assert(lines.take(i) =~= lines);
    }
}

fn load_error_of(e: SampleParseError) -> (r: CsvLoadError)
    ensures
        r == load_error(e),
{
    match e {
        SampleParseError::FailedSplit => CsvLoadError::FailedSplit,
        SampleParseError::ExpectedParseError => CsvLoadError::ExpectedParseError,
        SampleParseError::FeatureParseError => CsvLoadError::FeatureParseError,
        SampleParseError::LabelOutOfRange => CsvLoadError::LabelOutOfRange,
    }
}

/// Samples parsed from text and held in memory.
#[derive(Debug)]
pub struct CsvDataset<T> {
    samples: Vec<Sample<T>>,
}

impl<T: Copy> CsvDataset<T> {
    /// Reads one sample per line of `input`. Each pixel goes through `scale`;
    /// each target is `one` at the label's class and `zero` elsewhere.
    pub fn new<F: Fn(u8) -> T>(input: &str, scale: F, zero: T, one: T) -> (r: Result<
        Self,
        CsvLoadError,
    >)
        requires
            forall|v: u8| scale.requires((v,)),
        ensures
            match csv_records(input.spec_bytes()) {
                Ok(rs) => {
                    &&& r is Ok
                    &&& r->Ok_0.samples().len() == rs.len()
                    &&& forall|i: int|
                        0 <= i < rs.len() ==> encodes(
                            #[trigger] r->Ok_0.samples()[i],
                            rs[i].0,
                            rs[i].1,
                            scale,
                            zero,
                            one,
                        )
                },
                Err(e) => r == Err::<Self, CsvLoadError>(e),
            },
            r is Ok ==> uniform_samples(r->Ok_0.samples()),
    {
        let lines = split_lines(input.as_bytes());
        let ghost ls = text_lines(input.spec_bytes());
        let mut parsed: Vec<MnistSample> = Vec::new();
        let mut i: usize = 0;
        assert(ls.take(0) =~= Seq::<Seq<u8>>::empty());
        assert(Seq::new(0, |k: int| (parsed[k].label as nat, parsed[k].pixels@)) =~= Seq::<
            (nat, Seq<u8>),
        >::empty());
        while i < lines.len()
            invariant
                ls == text_lines(input.spec_bytes()),
                lines.len() == ls.len(),
                forall|k: int| 0 <= k < lines.len() ==> #[trigger] lines[k]@ == ls[k],
                i <= lines.len(),
                parsed.len() == i,
                records_of(ls.take(i as int)) == Ok::<Seq<(nat, Seq<u8>)>, SampleParseError>(
                    Seq::new(i as nat, |k: int| (parsed[k].label as nat, parsed[k].pixels@)),
                ),
                forall|k: int| 0 <= k < i ==> (#[trigger] parsed[k]).label < NUM_CLASSES,
            decreases lines.len() - i,
        {
            let ghost before = ls.take(i as int);
            assert(ls.take(i + 1).drop_last() =~= before);
            assert(ls.take(i + 1).last() == ls[i as int]);
            match MnistSample::parse(lines[i].as_slice()) {
                Err(e) => {
                    proof {
                        lemma_records_err_extends(ls, i + 1);
                    }
                    return Err(load_error_of(e));
                },
                Ok(s) => {
                    let ghost prev = Seq::new(
                        i as nat,
                        |k: int| (parsed[k].label as nat, parsed[k].pixels@),
                    );
                    let ghost rec = (s.label as nat, s.pixels@);
                    assert(line_record(ls[i as int]) == Ok::<(nat, Seq<u8>), SampleParseError>(rec));
                    parsed.push(s);
                    assert(Seq::new((i + 1) as nat, |k: int| (parsed[k].label as nat, parsed[k].pixels@))
                        =~= prev.push(rec));
                },
            }
            i = i + 1;
        }
        assert(ls.take(lines.len() as int) =~= ls);
        let ghost rs = Seq::new(parsed.len() as nat, |k: int| (parsed[k].label as nat, parsed[k].pixels@));
        let n = parsed.len();
        assert(records_of(ls) == Ok::<Seq<(nat, Seq<u8>)>, SampleParseError>(rs));
        if n > 0 {
            let width = parsed[0].pixels.len();
            let mut k: usize = 0;
            while k < n
                invariant
                    n == parsed.len() > 0,
                    rs == Seq::new(parsed.len() as nat, |k: int| (parsed[k].label as nat, parsed[k].pixels@)),
                    ls == text_lines(input.spec_bytes()),
                    records_of(ls) == Ok::<Seq<(nat, Seq<u8>)>, SampleParseError>(rs),
                    width == parsed[0].pixels.len(),
                    k <= n,
                    forall|j: int| 0 <= j < k ==> (#[trigger] parsed[j]).pixels.len() == width,
                decreases n - k,
            {
                if parsed[k].pixels.len() != width {
                    assert(rs[k as int].1.len() != rs[0].1.len());
                    assert(!uniform_records(rs));
                    return Err(CsvLoadError::UnevenSampleSizes);
                }
                k = k + 1;
            }
            assert(uniform_records(rs)) by {
                assert forall|a: int, b: int| 0 <= a < rs.len() && 0 <= b < rs.len() implies (
                #[trigger] rs[a]).1.len() == (#[trigger] rs[b]).1.len() by {
                    assert(parsed[a].pixels.len() == width);
                    assert(parsed[b].pixels.len() == width);
                }
            }
        }
        assert(uniform_records(rs));
        let mut samples: Vec<Sample<T>> = Vec::new();
        let mut k: usize = 0;
        while k < n
            invariant
                n == parsed.len(),
                rs == Seq::new(parsed.len() as nat, |k: int| (parsed[k].label as nat, parsed[k].pixels@)),
                ls == text_lines(input.spec_bytes()),
                records_of(ls) == Ok::<Seq<(nat, Seq<u8>)>, SampleParseError>(rs),
                uniform_records(rs),
                forall|v: u8| scale.requires((v,)),
                forall|j: int| 0 <= j < n ==> (#[trigger] parsed[j]).label < NUM_CLASSES,
                k <= n,
                samples.len() == k,
                forall|j: int|
                    0 <= j < k ==> encodes(
                        #[trigger] samples[j],
                        parsed[j].label as nat,
                        parsed[j].pixels@,
                        scale,
                        zero,
                        one,
                    ),
            decreases n - k,
        {
            let s = parsed[k].to_sample(&scale, zero, one);
            samples.push(s);
            k = k + 1;
        }
        let r = CsvDataset { samples };
        proof {
            if n > 0 {
                assert(uniform_samples(r.samples@)) by {
                    assert forall|a: int, b: int|
                        0 <= a < n && 0 <= b < n implies (#[trigger] r.samples@[a]).inputs.len()
                        == (#[trigger] r.samples@[b]).inputs.len() && r.samples@[a].expected.len()
                        == r.samples@[b].expected.len() by {
                        assert(rs[a].1.len() == rs[b].1.len());
                    }
                }
            }
        }
        Ok(r)
    }
}

impl<T> Dataset<T> for CsvDataset<T> {
    closed spec fn samples(&self) -> Seq<Sample<T>> {
        self.samples@
    }

    fn len(&self) -> (r: usize) {
        self.samples.len()
    }

    fn is_empty(&self) -> (r: bool) {
        self.samples.len() == 0
    }

    fn get(&self, index: usize) -> (r: Option<&Sample<T>>) {
        if index < self.samples.len() {
            Some(&self.samples[index])
        } else {
            None
        }
    }
}

} // verus!
