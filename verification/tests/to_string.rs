use durfmt::Duration;
use durfmt::fmt_frac;
use durfmt::fmt_int;
use durfmt::to_string;

#[test]
fn test_to_string() {
    assert_eq!("0s", to_string(Duration::new(0, 0)));
    assert_eq!("1ns", to_string(Duration::new(0, 1)));
    assert_eq!("1.1µs", to_string(Duration::new(0, 1100)));
    assert_eq!("2.2ms", to_string(Duration::new(0, 2200_000)));
    assert_eq!("100.567123ms", to_string(Duration::new(0, 100_567_123)));
    assert_eq!("3.3s", to_string(Duration::new(3, 300_000_000)));
    assert_eq!(
        "9m13.123456789s",
        to_string(Duration::new(553, 123_456_789))
    );
    assert_eq!("4m5s", to_string(Duration::new(4 * 60 + 5, 0)));
    assert_eq!("4m5.001s", to_string(Duration::new(4 * 60 + 5, 1_000_000)));
    assert_eq!(
        "5h6m7.001s",
        to_string(Duration::new((5 * 60 * 60) + (6 * 60) + 7, 1_000_000))
    );
    assert_eq!("8m0.000000001s", to_string(Duration::new(8 * 60, 1)));
    assert_eq!(
        "2562047h47m16.854775807s",
        to_string(Duration::new(
            (2562047 * 60 * 60) + (47 * 60) + 16,
            854_775_807
        ))
    );
    assert_eq!(
        "5124095576030431h0m15s",
        to_string(Duration::new(u64::MAX, 0))
    );
    assert_eq!(
        "5124095576030431h0m15.999999999s",
        to_string(Duration::new(u64::MAX, 999_999_999))
    );
    assert_eq!(
        "5124095576030431h0m15.000001s",
        to_string(Duration::new(u64::MAX, 1_000))
    );
    assert_eq!(
        "5124095576030431h0m15.001s",
        to_string(Duration::new(u64::MAX, 1_000_000))
    );
}

#[test]
fn test_unit_boundaries() {
    assert_eq!("999ns", to_string(Duration::new(0, 999)));
    assert_eq!("1µs", to_string(Duration::new(0, 1_000)));
    assert_eq!("999.999µs", to_string(Duration::new(0, 999_999)));
    assert_eq!("1ms", to_string(Duration::new(0, 1_000_000)));
    assert_eq!("999.999999ms", to_string(Duration::new(0, 999_999_999)));
    assert_eq!("1s", to_string(Duration::new(1, 0)));
    assert_eq!("59s", to_string(Duration::new(59, 0)));
    assert_eq!("1m0s", to_string(Duration::new(60, 0)));
    assert_eq!("59m59s", to_string(Duration::new(3599, 0)));
    assert_eq!("1h0m0s", to_string(Duration::new(3600, 0)));
}

#[test]
fn test_fraction_trimming() {
    // Trailing zero digits of the fraction are dropped, and the decimal
    // point vanishes when the whole fraction is zero.
    assert_eq!("120µs", to_string(Duration::new(0, 120_000)));
    assert_eq!("1.5ms", to_string(Duration::new(0, 1_500_000)));
    assert_eq!("2.25s", to_string(Duration::new(2, 250_000_000)));
    assert_eq!("1m1s", to_string(Duration::new(61, 0)));
    let rendered = to_string(Duration::new(3, 300_000_000));
    assert!(!rendered.contains(".30"));
    assert!(!rendered.contains(".s"));
}

#[test]
fn test_no_leading_zero_segment() {
    // A unit segment whose value is zero never leads the output; inner zero
    // segments are still printed.
    assert_eq!("1m0s", to_string(Duration::new(60, 0)));
    assert_eq!("1h0m0s", to_string(Duration::new(3600, 0)));
    for (secs, nanos) in [
        (0u64, 1u32),
        (0, 999),
        (0, 1_000),
        (0, 999_999_999),
        (1, 0),
        (59, 999_999_999),
        (60, 0),
        (3600, 5),
        (u64::MAX, 999_999_999),
    ] {
        let rendered = to_string(Duration::new(secs, nanos));
        let first = rendered.chars().next().unwrap();
        assert!(('1'..='9').contains(&first), "leading zero in {rendered}");
    }
}

#[test]
fn test_round_trip() {
    // Re-parsing the emitted segments and suffix reconstructs the exact
    // total nanosecond count.
    let cases = [
        (0u64, 0u32),
        (0, 1),
        (0, 999),
        (0, 1_000),
        (0, 1100),
        (0, 999_999),
        (0, 1_000_000),
        (0, 100_567_123),
        (0, 999_999_999),
        (1, 0),
        (3, 300_000_000),
        (59, 999_999_999),
        (60, 0),
        (245, 1_000_000),
        (480, 1),
        (553, 123_456_789),
        (18367, 1_000_000),
        (86400, 0),
        (u64::MAX, 999_999_999),
    ];
    for (secs, nanos) in cases {
        let rendered = to_string(Duration::new(secs, nanos));
        let (back_secs, back_nanos) = reparse(&rendered);
        assert_eq!((secs, nanos), (back_secs, back_nanos), "from {rendered}");
    }
}

// Reads a rendered duration back into whole seconds and nanoseconds.
fn reparse(s: &str) -> (u64, u32) {
    let (scale, body) = if let Some(b) = s.strip_suffix("ns") {
        (1u64, b)
    } else if let Some(b) = s.strip_suffix("µs") {
        (1_000, b)
    } else if let Some(b) = s.strip_suffix("ms") {
        (1_000_000, b)
    } else {
        (1_000_000_000, s.strip_suffix('s').unwrap())
    };
    let (clock, body) = match body.rfind(['h', 'm']) {
        Some(i) => (&body[..i + 1], &body[i + 1..]),
        None => ("", body),
    };
    if !clock.is_empty() {
        assert_eq!(scale, 1_000_000_000, "h/m segments only with the s unit");
    }
    let mut secs: u64 = 0;
    let mut rest = clock;
    if let Some(i) = rest.find('h') {
        secs += rest[..i].parse::<u64>().unwrap() * 3600;
        rest = &rest[i + 1..];
    }
    if let Some(i) = rest.find('m') {
        secs = secs.checked_add(rest[..i].parse::<u64>().unwrap() * 60).unwrap();
        rest = &rest[i + 1..];
    }
    assert!(rest.is_empty());
    let (int_part, frac_part) = match body.find('.') {
        Some(i) => (&body[..i], &body[i + 1..]),
        None => (body, ""),
    };
    let int_val: u64 = int_part.parse().unwrap();
    let prec: u32 = match scale {
        1 => 0,
        1_000 => 3,
        1_000_000 => 6,
        _ => 9,
    };
    assert!(frac_part.len() <= prec as usize);
    let mut frac_val: u64 = 0;
    for c in frac_part.chars() {
        frac_val = frac_val * 10 + c.to_digit(10).unwrap() as u64;
    }
    frac_val *= 10u64.pow(prec - frac_part.len() as u32);
    let total_in_unit = int_val
        .checked_mul(10u64.pow(prec))
        .and_then(|v| v.checked_add(frac_val));
    if scale == 1_000_000_000 {
        // int_val is the seconds digit group; the clock part already holds
        // the rest of the seconds.
        (secs.checked_add(int_val).unwrap(), frac_val as u32)
    } else {
        let nanos = total_in_unit.unwrap();
        (0, nanos as u32)
    }
}

#[test]
fn test_fmt_int() {
    assert_eq!(vec!['0'], fmt_int(0));
    assert_eq!(vec!['7'], fmt_int(7));
    assert_eq!(vec!['1', '0'], fmt_int(10));
    assert_eq!(
        "18446744073709551615".chars().collect::<Vec<char>>(),
        fmt_int(u64::MAX)
    );
}

#[test]
fn test_fmt_frac() {
    let (frac, rest) = fmt_frac(0, 9);
    assert_eq!(Vec::<char>::new(), frac);
    assert_eq!(0, rest);
    let (frac, rest) = fmt_frac(1_000_000, 9);
    assert_eq!(vec!['.', '0', '0', '1'], frac);
    assert_eq!(0, rest);
    let (frac, rest) = fmt_frac(123_456_789, 9);
    assert_eq!(".123456789".chars().collect::<Vec<char>>(), frac);
    assert_eq!(0, rest);
    let (frac, rest) = fmt_frac(2_200_000, 6);
    assert_eq!(vec!['.', '2'], frac);
    assert_eq!(2, rest);
    let (frac, rest) = fmt_frac(999, 3);
    assert_eq!(vec!['.', '9', '9', '9'], frac);
    assert_eq!(0, rest);
    let (frac, rest) = fmt_frac(42, 0);
    assert_eq!(Vec::<char>::new(), frac);
    assert_eq!(42, rest);
}

#[test]
fn test_duration_accessors() {
    let d = Duration::new(553, 123_456_789);
    assert_eq!(553, d.as_secs());
    assert_eq!(123_456_789, d.subsec_nanos());
}
