use mnist::csv_dataset::{CsvDataset, CsvLoadError};
use mnist::dataset::Dataset;
use mnist::config::ConfigError;
use mnist::loader::DataLoader;
use mnist::matrix::Matrix;
use mnist::mnist_sample::{MnistSample, SampleParseError, NUM_CLASSES};
use mnist::text::{parse_unsigned, split_bytes, split_lines};

fn scale(v: u8) -> f64 {
    (v as f64 - 127.5) / 127.5
}

fn load(text: &str) -> Result<CsvDataset<f64>, CsvLoadError> {
    CsvDataset::new(text, scale, 0.0, 1.0)
}

fn close(a: f64, b: f64) -> bool {
    (a - b).abs() < 0.01
}

fn all_batches<D: Dataset<f64>>(loader: &DataLoader<f64, D>) -> Vec<(Matrix<f64>, Matrix<f64>)> {
    let mut it = loader.batches();
    let mut out = Vec::new();
    while let Some(b) = it.next() {
        out.push(b);
    }
    out
}

fn numbered(n: usize) -> String {
    let mut text = String::new();
    for i in 0..n {
        text.push_str(&format!("{},{},{}\n", i % 10, i, 255 - i));
    }
    text
}

#[test]
fn two_record_batch() {
    let ds = load("3,10,20\n7,200,255").unwrap();
    let loader = DataLoader::new(ds, 2, false, None).unwrap();
    assert_eq!(loader.input_size(), 2);
    assert_eq!(loader.output_size(), 10);
    let batches = all_batches(&loader);
    assert_eq!(batches.len(), 1);
    let (inputs, targets) = &batches[0];
    assert_eq!(inputs.n_rows(), 2);
    assert_eq!(inputs.n_cols(), 2);
    assert!(close(inputs.rows[0][0], -0.92));
    assert!(close(inputs.rows[0][1], -0.84));
    assert!(close(inputs.rows[1][0], 0.57));
    assert!(close(inputs.rows[1][1], 1.0));
    assert_eq!(targets.n_cols(), 10);
    for c in 0..10 {
        assert_eq!(targets.rows[0][c], if c == 3 { 1.0 } else { 0.0 });
        assert_eq!(targets.rows[1][c], if c == 7 { 1.0 } else { 0.0 });
    }
}

#[test]
fn dataset_length_and_lookup() {
    let ds = load(&numbered(5)).unwrap();
    assert_eq!(ds.len(), 5);
    assert!(!ds.is_empty());
    for i in 0..5 {
        let s = ds.get(i).unwrap();
        assert_eq!(s.input_size(), 2);
        assert_eq!(s.output_size(), NUM_CLASSES);
    }
    assert!(ds.get(5).is_none());
}

#[test]
fn empty_text_gives_empty_dataset() {
    let ds = load("").unwrap();
    assert_eq!(ds.len(), 0);
    assert!(ds.is_empty());
    let loader = DataLoader::new(ds, 4, true, Some(1)).unwrap();
    assert_eq!(loader.input_size(), 0);
    assert_eq!(loader.output_size(), 0);
    assert_eq!(all_batches(&loader).len(), 0);
}

#[test]
fn batch_sizes_cover_dataset() {
    let loader = DataLoader::new(load(&numbered(7)).unwrap(), 3, false, None).unwrap();
    let sizes: Vec<usize> = all_batches(&loader).iter().map(|b| b.0.n_rows()).collect();
    assert_eq!(sizes, vec![3, 3, 1]);
    assert_eq!(sizes.iter().sum::<usize>(), 7);
}

#[test]
fn unshuffled_batches_keep_order() {
    let loader = DataLoader::new(load(&numbered(5)).unwrap(), 2, false, None).unwrap();
    let batches = all_batches(&loader);
    let firsts: Vec<f64> = batches.iter().flat_map(|b| b.0.rows.iter().map(|r| r[0])).collect();
    let expected: Vec<f64> = (0..5).map(|i| scale(i as u8)).collect();
    assert_eq!(firsts, expected);
}

#[test]
fn oversized_batch_gives_one_batch() {
    let loader = DataLoader::new(load(&numbered(4)).unwrap(), 100, false, None).unwrap();
    let batches = all_batches(&loader);
    assert_eq!(batches.len(), 1);
    assert_eq!(batches[0].0.n_rows(), 4);
}

#[test]
fn zero_batch_size_is_refused() {
    let r = DataLoader::new(load(&numbered(4)).unwrap(), 0, false, None);
    assert!(matches!(r, Err(ConfigError::ZeroBatchSize)));
}

#[test]
fn seeded_shuffle_repeats() {
    let loader = DataLoader::new(load(&numbered(20)).unwrap(), 6, true, Some(42)).unwrap();
    let a = all_batches(&loader);
    let b = all_batches(&loader);
    assert_eq!(a.len(), 4);
    for (x, y) in a.iter().zip(b.iter()) {
        assert_eq!(x.0.rows, y.0.rows);
        assert_eq!(x.1.rows, y.1.rows);
    }
    let other = DataLoader::new(load(&numbered(20)).unwrap(), 6, true, Some(42)).unwrap();
    let c = all_batches(&other);
    for (x, y) in a.iter().zip(c.iter()) {
        assert_eq!(x.0.rows, y.0.rows);
    }
}

#[test]
fn shuffle_is_a_permutation() {
    let loader = DataLoader::new(load(&numbered(30)).unwrap(), 7, true, None).unwrap();
    let mut seen: Vec<f64> = all_batches(&loader)
        .iter()
        .flat_map(|b| b.0.rows.iter().map(|r| r[0]))
        .collect();
    seen.sort_by(|a, b| a.partial_cmp(b).unwrap());
    let expected: Vec<f64> = (0..30).map(|i| scale(i as u8)).collect();
    assert_eq!(seen, expected);
}

#[test]
fn seeded_shuffle_moves_samples() {
    let loader = DataLoader::new(load(&numbered(30)).unwrap(), 30, true, Some(7)).unwrap();
    let firsts: Vec<f64> = all_batches(&loader)[0].0.rows.iter().map(|r| r[0]).collect();
    let ordered: Vec<f64> = (0..30).map(|i| scale(i as u8)).collect();
    assert_ne!(firsts, ordered);
}

#[test]
fn load_errors() {
    assert!(matches!(load("abc"), Err(CsvLoadError::FailedSplit)));
    assert!(matches!(load("3,x"), Err(CsvLoadError::FeatureParseError)));
    assert!(matches!(load("3,256"), Err(CsvLoadError::FeatureParseError)));
    assert!(matches!(load("3,"), Err(CsvLoadError::FeatureParseError)));
    assert!(matches!(load("x,3"), Err(CsvLoadError::ExpectedParseError)));
    assert!(matches!(load("x,y"), Err(CsvLoadError::FeatureParseError)));
    assert!(matches!(load("12,3"), Err(CsvLoadError::LabelOutOfRange)));
    assert!(matches!(load("3,1\n4,1,2"), Err(CsvLoadError::UnevenSampleSizes)));
    assert!(matches!(load("3,1\n\n4,1"), Err(CsvLoadError::FailedSplit)));
}

#[test]
fn crlf_lines_and_plus_signs() {
    let ds = load("+3,+4,5\r\n2,0,255\r\n").unwrap();
    assert_eq!(ds.len(), 2);
    let s = ds.get(0).unwrap();
    assert_eq!(s.inputs, vec![scale(4), scale(5)]);
    assert_eq!(s.expected[3], 1.0);
    assert_eq!(ds.get(1).unwrap().inputs, vec![-1.0, 1.0]);
}

#[test]
fn parse_sample_line() {
    let s: MnistSample = "5,0,255,17".parse().unwrap();
    assert_eq!(s.label, 5);
    assert_eq!(s.pixels, vec![0, 255, 17]);
    assert_eq!(s.size(), 3);
    let t = s.to_sample(&|v: u8| v as i32 * 2, 0, 1);
    assert_eq!(t.inputs, vec![0, 510, 34]);
    assert_eq!(t.expected, vec![0, 0, 0, 0, 0, 1, 0, 0, 0, 0]);
}

#[test]
fn parse_sample_errors() {
    assert!(matches!(MnistSample::parse(b"17"), Err(SampleParseError::FailedSplit)));
    assert!(matches!(MnistSample::parse(b"-1,2"), Err(SampleParseError::ExpectedParseError)));
    assert!(matches!(MnistSample::parse(b"1,-2"), Err(SampleParseError::FeatureParseError)));
    assert!(matches!(MnistSample::parse(b"10,2"), Err(SampleParseError::LabelOutOfRange)));
    assert!(matches!(
        MnistSample::parse(b"99999999999999999999999,2"),
        Err(SampleParseError::ExpectedParseError)
    ));
}

#[test]
fn unsigned_numbers() {
    assert_eq!(parse_unsigned(b"0", 255), Some(0));
    assert_eq!(parse_unsigned(b"255", 255), Some(255));
    assert_eq!(parse_unsigned(b"0000255", 255), Some(255));
    assert_eq!(parse_unsigned(b"+7", 255), Some(7));
    assert_eq!(parse_unsigned(b"256", 255), None);
    assert_eq!(parse_unsigned(b"", 255), None);
    assert_eq!(parse_unsigned(b"+", 255), None);
    assert_eq!(parse_unsigned(b"1 ", 255), None);
    assert_eq!(parse_unsigned(b"18446744073709551615", usize::MAX), Some(usize::MAX));
}

#[test]
fn fields_and_lines() {
    let f = split_bytes(b"a,,bc,", b',');
    assert_eq!(f, vec![b"a".to_vec(), vec![], b"bc".to_vec(), vec![]]);
    assert_eq!(split_bytes(b"", b','), vec![Vec::<u8>::new()]);
    let l = split_lines(b"x\r\ny\n\nz\r");
    assert_eq!(l, vec![b"x".to_vec(), b"y".to_vec(), vec![], b"z\r".to_vec()]);
    assert_eq!(split_lines(b"a\n"), vec![b"a".to_vec()]);
    assert!(split_lines(b"").is_empty());
}

#[test]
fn from_str_errors() {
    assert!(matches!("5".parse::<MnistSample>(), Err(SampleParseError::FailedSplit)));
    assert!(matches!("5,1,x".parse::<MnistSample>(), Err(SampleParseError::FeatureParseError)));
    assert!(matches!("a,1,2".parse::<MnistSample>(), Err(SampleParseError::ExpectedParseError)));
    assert!(matches!("10,1,2".parse::<MnistSample>(), Err(SampleParseError::LabelOutOfRange)));
}
