use quantaxis_rs::errors::ErrorKind;
use quantaxis_rs::indicators::MovingAverage;
use quantaxis_rs::qafetch::BAR;

/// Samples are written as decimals and handed over in hundredths.
fn fx(x: f64) -> i64 {
    (x * 100.0).round() as i64
}

fn bar_with_close(close: f64) -> BAR {
    BAR {
        code: String::new(),
        datetime: String::new(),
        open: 0,
        high: 0,
        low: 0,
        close: fx(close),
        volume: 0,
    }
}

#[test]
fn test_sma_new() {
    assert_eq!(MovingAverage::new(0).err(), Some(ErrorKind::InvalidParameter));
    assert!(MovingAverage::new(1).is_ok());
}

#[test]
fn test_sma_next() {
    let mut sma = MovingAverage::new(4).unwrap();
    assert_eq!(sma.next(fx(4.0)), fx(4.0));
    assert_eq!(sma.next(fx(5.0)), fx(4.5));
    assert_eq!(sma.next(fx(6.0)), fx(5.0));
    assert_eq!(sma.next(fx(6.0)), fx(5.25));
    assert_eq!(sma.next(fx(6.0)), fx(5.75));
    assert_eq!(sma.next(fx(6.0)), fx(6.0));
    assert_eq!(sma.next(fx(2.0)), fx(5.0));
}

#[test]
fn test_sma_next_with_bars() {
    let mut sma = MovingAverage::new(3).unwrap();
    assert_eq!(sma.next_bar(&bar_with_close(4.0)), fx(4.0));
    assert_eq!(sma.next_bar(&bar_with_close(4.0)), fx(4.0));
    assert_eq!(sma.next_bar(&bar_with_close(7.0)), fx(5.0));
    assert_eq!(sma.next_bar(&bar_with_close(1.0)), fx(4.0));
}

#[test]
fn test_sma_rounds_down() {
    let mut sma = MovingAverage::new(2).unwrap();
    assert_eq!(sma.next(1), 1);
    assert_eq!(sma.next(2), 1);
    assert_eq!(sma.next(-5), -2);
    assert_eq!(sma.next(0), -3);
    assert_eq!(sma.next(-1), -1);
    assert_eq!(sma.next(-1), -1);
}

#[test]
fn test_sma_extreme_samples() {
    let mut sma = MovingAverage::new(3).unwrap();
    assert_eq!(sma.next(i64::MAX), i64::MAX);
    assert_eq!(sma.next(i64::MAX), i64::MAX);
    assert_eq!(sma.next(i64::MAX), i64::MAX);
    assert_eq!(sma.next(i64::MIN), 3074457345618258602);
    assert_eq!(sma.next(i64::MIN), -3074457345618258603);
    assert_eq!(sma.next(i64::MIN), i64::MIN);
}

#[test]
fn test_sma_reset() {
    let mut sma = MovingAverage::new(4).unwrap();
    assert_eq!(sma.next(fx(4.0)), fx(4.0));
    assert_eq!(sma.next(fx(5.0)), fx(4.5));
    let before = sma.cached().clone();

    sma.reset();
    assert_eq!(sma.cached(), &before);
    assert_eq!(sma.next(fx(99.0)), fx(99.0));
    assert_eq!(sma.next(fx(1.0)), fx(50.0));
}

#[test]
fn test_sma_update() {
    let mut sma = MovingAverage::new(3).unwrap();
    assert_eq!(sma.next(fx(4.0)), fx(4.0));
    assert_eq!(sma.next(fx(8.0)), fx(6.0));
    assert_eq!(sma.update(fx(6.0)), fx(5.0));
    assert_eq!(sma.next(fx(2.0)), fx(4.0));
    assert_eq!(sma.next(fx(1.0)), fx(3.0));
    assert_eq!(sma.update(fx(4.0)), fx(4.0));
    assert_eq!(sma.cached(), &vec![fx(5.0), fx(4.0), fx(4.0)]);
}

#[test]
fn test_sma_update_before_any_sample() {
    let mut sma = MovingAverage::new(3).unwrap();
    assert_eq!(sma.update(fx(7.0)), fx(7.0));
    assert_eq!(sma.update(fx(9.0)), fx(9.0));
    assert_eq!(sma.next(fx(1.0)), fx(5.0));
    assert_eq!(sma.cached(), &vec![0, fx(9.0), fx(5.0)]);
}

#[test]
fn test_sma_update_is_next_with_other_sample() {
    let mut revised = MovingAverage::new(4).unwrap();
    let mut direct = MovingAverage::new(4).unwrap();
    for &x in &[9, 1, 6, 7, 7] {
        revised.next(x);
        direct.next(x);
    }
    revised.next(-100);
    assert_eq!(revised.update(2), direct.next(2));
    assert_eq!(revised.cached(), direct.cached());
    for &x in &[3, 4, 5, 6] {
        assert_eq!(revised.next(x), direct.next(x));
    }
}

#[test]
fn test_sma_output_is_mean_of_last_n() {
    let samples: Vec<i64> = vec![3, -8, 12, 12, 5, 0, -1, 40, 2, 2, 2, 2, -9, 7];
    for n in 1..=6usize {
        let mut sma = MovingAverage::new(n as u32).unwrap();
        for (k, &x) in samples.iter().enumerate() {
            let out = sma.next(x);
            let from = (k + 1).saturating_sub(n);
            let part = &samples[from..=k];
            let expected = part.iter().sum::<i64>().div_euclid(part.len() as i64);
            assert_eq!(out, expected);
            assert_eq!(sma.cached().len(), n);
            assert_eq!(sma.cached()[n - 1], out);
        }
    }
}

#[test]
fn test_sma_default_and_label() {
    let sma = MovingAverage::default();
    assert_eq!(sma.period(), 14);
    assert_eq!(sma.to_string(), "SMA(14)");
    assert_eq!(sma.cached(), &vec![0; 14]);
    assert_eq!(MovingAverage::new(5).unwrap().to_string(), "SMA(5)");
}
