use asphinx::duration::{Counter, PrintableDuration};

#[test]
fn test_fmt_1min() {
    let res = PrintableDuration::new(60 * 1000).to_string();
    assert_eq!(&res, "1m")
}

#[test]
fn test_fmt_1min20s() {
    let res = PrintableDuration::new(60 * 1000 + 20 * 1000).to_string();
    assert_eq!(&res, "1m 20s")
}

#[test]
fn test_fmt_1min20s30ms() {
    let res = PrintableDuration::new(60 * 1000 + 20 * 1000 + 30).to_string();
    assert_eq!(&res, "1m 20s 30ms")
}

#[test]
fn test_fmt_20s() {
    let res = PrintableDuration::new(20 * 1000).to_string();
    assert_eq!(&res, "20s")
}

#[test]
fn test_fmt_20s30ms() {
    let res = PrintableDuration::new(20 * 1000 + 30).to_string();
    assert_eq!(&res, "20s 30ms")
}

#[test]
fn test_fmt_30ms() {
    let res = PrintableDuration::new(30).to_string();
    assert_eq!(&res, "30ms")
}

#[test]
fn fmt_minutes_beyond_an_hour() {
    let res = PrintableDuration::new(125 * 60 * 1000 + 7).to_string();
    assert_eq!(&res, "125m 7ms");
}

#[test]
fn fmt_multi_digit_parts() {
    let res = PrintableDuration::new(10 * 60 * 1000 + 59 * 1000 + 999).to_string();
    assert_eq!(&res, "10m 59s 999ms");
}

#[test]
fn counter_measures_non_negative_time() {
    let mut c = Counter::new();
    c.reset();
    assert!(c.elapsed().is_some());
    assert!(c.from_start().is_some());
}
