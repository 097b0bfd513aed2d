use std::time::Duration;

use everygarf::{format_bytes, format_duration};

#[test]
fn format_bytes_works() {
    assert_eq!(format_bytes(0), "0B");
    assert_eq!(format_bytes(1), "1B");
    assert_eq!(format_bytes(10), "10B");
    assert_eq!(format_bytes(12), "12B");
    assert_eq!(format_bytes(100), "100B");
    assert_eq!(format_bytes(120), "120B");
    assert_eq!(format_bytes(123), "123B");

    assert_eq!(format_bytes(1_000), "1.0kB");
    assert_eq!(format_bytes(1_200), "1.2kB");
    assert_eq!(format_bytes(1_230), "1.2kB");
    assert_eq!(format_bytes(1_234), "1.2kB");

    assert_eq!(format_bytes(10_000), "10.0kB");
    assert_eq!(format_bytes(12_000), "12.0kB");
    assert_eq!(format_bytes(12_300), "12.3kB");
    assert_eq!(format_bytes(12_345), "12.3kB");
    assert_eq!(format_bytes(100_000), "100.0kB");
    assert_eq!(format_bytes(120_000), "120.0kB");
    assert_eq!(format_bytes(123_450), "123.4kB");

    assert_eq!(format_bytes(1_000_000), "1.0MB");
    assert_eq!(format_bytes(1_234_000), "1.2MB");
    assert_eq!(format_bytes(10_000_000), "10.0MB");
    assert_eq!(format_bytes(12_345_678), "12.3MB");
    assert_eq!(format_bytes(100_000_000), "100.0MB");

    assert_eq!(format_bytes(1_000_000_000), "1.0GB");
    assert_eq!(format_bytes(10_000_000_000), "10.0GB");
    assert_eq!(format_bytes(100_000_000_000), "100.0GB");
    assert_eq!(format_bytes(123_456_789_123), "123.5GB");

    assert_eq!(format_bytes(1_000_000_000_000), "1.0TB");
    assert_eq!(format_bytes(100_000_000_000_000), "100.0TB");
    assert_eq!(format_bytes(123_456_789_123_456), "123.5TB");
}

#[test]
fn format_bytes_rounds_up_to_the_top_of_the_largest_unit() {
    assert_eq!(format_bytes(999_950_000_000_000), "999.9TB");
    assert_eq!(format_bytes(999_950_000_000_001), "1000.0TB");
    assert_eq!(format_bytes(999_999_999_999_999), "1000.0TB");
}

#[test]
fn format_duration_works() {
    assert_eq!(format_duration(Duration::from_secs(0).as_secs()), "0s");
    assert_eq!(format_duration(Duration::from_secs(1).as_secs()), "1s");
    assert_eq!(format_duration(Duration::from_secs(10).as_secs()), "10s");
    assert_eq!(format_duration(Duration::from_secs(59).as_secs()), "59s");
    assert_eq!(format_duration(Duration::from_secs(60).as_secs()), "1m");
    assert_eq!(format_duration(Duration::from_secs(61).as_secs()), "1m 1s");
    assert_eq!(format_duration(Duration::from_secs(119).as_secs()), "1m 59s");
    assert_eq!(format_duration(Duration::from_secs(120).as_secs()), "2m");
    assert_eq!(format_duration(Duration::from_secs(150).as_secs()), "2m 30s");
    assert_eq!(format_duration(Duration::from_secs(3_540).as_secs()), "59m");
    assert_eq!(format_duration(Duration::from_secs(3_541).as_secs()), "59m 1s");
    assert_eq!(format_duration(Duration::from_secs(3_599).as_secs()), "59m 59s");
    assert_eq!(format_duration(Duration::from_secs(3_600).as_secs()), "1h");
    assert_eq!(format_duration(Duration::from_secs(3_601).as_secs()), "1h 1s");
    assert_eq!(format_duration(Duration::from_secs(3_659).as_secs()), "1h 59s");
    assert_eq!(format_duration(Duration::from_secs(3_660).as_secs()), "1h 1m");
    assert_eq!(format_duration(Duration::from_secs(3_661).as_secs()), "1h 1m 1s");
    assert_eq!(format_duration(Duration::from_secs(7_140).as_secs()), "1h 59m");
    assert_eq!(format_duration(Duration::from_secs(7_199).as_secs()), "1h 59m 59s");
    assert_eq!(format_duration(Duration::from_secs(7_200).as_secs()), "2h");
    assert_eq!(format_duration(Duration::from_secs(7_201).as_secs()), "2h 1s");
    assert_eq!(format_duration(Duration::from_secs(82_800).as_secs()), "23h");
    assert_eq!(format_duration(Duration::from_secs(82_859).as_secs()), "23h 59s");
    assert_eq!(format_duration(Duration::from_secs(86_340).as_secs()), "23h 59m");
    assert_eq!(format_duration(Duration::from_secs(86_399).as_secs()), "23h 59m 59s");
    assert_eq!(format_duration(Duration::from_secs(86_400).as_secs()), "1d");
    assert_eq!(format_duration(Duration::from_secs(86_401).as_secs()), "1d 1s");
    assert_eq!(format_duration(Duration::from_secs(864_000).as_secs()), "10d");
    assert_eq!(format_duration(Duration::from_secs(8_643_600).as_secs()), "100d 1h");
}
