use plug_meter::sampler::{Collect, Sampler, SAMPLE_COUNT};
use plug_meter::stats::{can_summarize, summarize, Summary};

fn run(count: usize, polls: Vec<Result<u64, String>>) -> Result<Vec<u64>, String> {
    let mut sampler = Sampler::new(count);
    for poll in polls {
        match sampler.observe(poll) {
            Collect::Pending(next) => sampler = next,
            Collect::Complete(samples) => return Ok(samples),
            Collect::Failed(e) => return Err(e),
        }
    }
    panic!("the fake source ran out of readings");
}

fn mean(s: &Summary) -> f64 {
    s.total as f64 / s.count as f64
}

fn std_dev(s: &Summary) -> f64 {
    let n = s.count as f64;
    (s.spread as f64 / (n * n)).sqrt()
}

#[test]
fn summary_of_three_readings() {
    let s = summarize(&vec![10, 20, 30]);
    assert_eq!(s.count, 3);
    assert_eq!(s.min, 10);
    assert_eq!(s.max, 30);
    assert_eq!(s.total, 60);
    assert_eq!(s.total_of_squares, 1400);
    assert_eq!(s.spread, 600);
    assert!((mean(&s) - 20.0).abs() < 1e-9);
    assert!((s.spread as f64 / 9.0 - 66.666_666).abs() < 1e-3);
    assert!((std_dev(&s) - 8.165).abs() < 1e-3);
}

#[test]
fn summary_of_one_reading() {
    let s = summarize(&vec![42]);
    assert_eq!((s.count, s.min, s.max, s.total, s.spread), (1, 42, 42, 42, 0));
}

#[test]
fn summary_of_equal_readings_has_no_spread() {
    let s = summarize(&vec![7, 7, 7, 7]);
    assert_eq!((s.min, s.max, s.total, s.spread), (7, 7, 28, 0));
}

#[test]
fn summary_extremes_in_any_position() {
    let s = summarize(&vec![5, 1, 9, 3]);
    assert_eq!((s.min, s.max), (1, 9));
}

#[test]
fn end_to_end_measurement() {
    let readings: Vec<u64> = vec![100, 110, 90, 105, 95, 100, 100, 110, 90, 100];
    let polls = readings.iter().map(|r| Ok(*r)).collect();
    let samples = run(SAMPLE_COUNT, polls).unwrap();
    assert_eq!(samples, readings);
    assert!(can_summarize(&samples));
    let s = summarize(&samples);
    assert_eq!(s.count, 10);
    assert_eq!(s.min, 90);
    assert_eq!(s.max, 110);
    assert_eq!(s.total, 1000);
    assert_eq!(s.spread, 4500);
    assert!((mean(&s) - 100.0).abs() < 1e-9);
    assert!((std_dev(&s) - 6.708).abs() < 1e-3);
}

#[test]
fn sampler_fails_fast() {
    let polls = vec![Ok(1), Ok(2), Err("device unreachable".to_string()), Ok(4)];
    assert_eq!(run(SAMPLE_COUNT, polls), Err("device unreachable".to_string()));
}

#[test]
fn sampler_failure_on_first_poll() {
    let sampler = Sampler::new(3);
    match sampler.observe::<u8>(Err(7)) {
        Collect::Failed(e) => assert_eq!(e, 7),
        _ => panic!("a failed poll must end the measurement"),
    }
}

#[test]
fn sampler_takes_exactly_count_readings() {
    let mut sampler = Sampler::new(3);
    assert_eq!((sampler.taken(), sampler.count()), (0, 3));
    for (i, r) in [4u64, 5].iter().enumerate() {
        match sampler.observe::<()>(Ok(*r)) {
            Collect::Pending(next) => sampler = next,
            _ => panic!("two readings of three do not complete"),
        }
        assert_eq!(sampler.taken(), i + 1);
    }
    match sampler.observe::<()>(Ok(6)) {
        Collect::Complete(samples) => assert_eq!(samples, vec![4, 5, 6]),
        _ => panic!("the third reading completes"),
    }
}

#[test]
fn sampler_of_one_reading() {
    match Sampler::new(1).observe::<()>(Ok(9)) {
        Collect::Complete(samples) => assert_eq!(samples, vec![9]),
        _ => panic!("one reading completes a measurement of one"),
    }
}

#[test]
fn can_summarize_limits() {
    assert!(!can_summarize(&vec![]));
    assert!(can_summarize(&vec![1, 2]));
    assert!(can_summarize(&vec![u64::MAX]));
    assert!(!can_summarize(&vec![u64::MAX, u64::MAX]));
    assert!(!can_summarize(&vec![u64::MAX, u64::MAX, u64::MAX]));
}
