use raze_cli::formatting::{
    append_decimal, append_signed, elapsed_between, format_bytes, format_total,
    time_since_timestamp, Time,
};

/// The text that floating point arithmetic and its formatting give.
fn float_text(bytes: u64) -> String {
    match bytes {
        n if n >= 10u64.pow(9) => format!("{:.2} GB", (n as f64) / 10u64.pow(9) as f64),
        n if n >= 10u64.pow(6) => format!("{:.2} MB", (n as f64) / 10u64.pow(6) as f64),
        n if n >= 10u64.pow(3) => format!("{:.2} KB", (n as f64) / 10u64.pow(3) as f64),
        _ => format!("{} bytes", bytes),
    }
}

#[test]
fn bytes_are_shown_in_the_largest_unit_they_fill() {
    assert_eq!(format_bytes(0), "0 bytes");
    assert_eq!(format_bytes(1), "1 bytes");
    assert_eq!(format_bytes(999), "999 bytes");
    assert_eq!(format_bytes(1_000), "1.00 KB");
    assert_eq!(format_bytes(1_500), "1.50 KB");
    assert_eq!(format_bytes(999_999), "1000.00 KB");
    assert_eq!(format_bytes(1_000_000), "1.00 MB");
    assert_eq!(format_bytes(4_000_000), "4.00 MB");
    assert_eq!(format_bytes(5_250_000), "5.25 MB");
    assert_eq!(format_bytes(999_999_999), "1000.00 MB");
    assert_eq!(format_bytes(1_000_000_000), "1.00 GB");
    assert_eq!(format_bytes(1_234_567_890), "1.23 GB");
    assert_eq!(format_bytes(u64::MAX), "18446744073.71 GB");
}

#[test]
fn halves_are_rounded_as_the_binary_quotient_lies() {
    assert_eq!(format_bytes(1_005), "1.00 KB");
    assert_eq!(format_bytes(1_015), "1.01 KB");
    assert_eq!(format_bytes(1_125), "1.12 KB");
    assert_eq!(format_bytes(1_135), "1.14 KB");
    assert_eq!(format_bytes(1_375), "1.38 KB");
    assert_eq!(format_bytes(2_675), "2.67 KB");
}

#[test]
fn every_amount_up_to_two_megabytes_reads_as_floating_point_gives_it() {
    let mut bytes: u64 = 0;
    while bytes <= 2_100_000 {
        assert_eq!(format_bytes(bytes), float_text(bytes));
        bytes += 1;
    }
}

#[test]
fn amounts_near_halves_read_as_floating_point_gives_them() {
    let mut k: u64 = 0;
    while k < 20_000 {
        for unit in [1_000_000u64, 1_000_000_000] {
            let half = k * (unit / 100) + unit / 200;
            for bytes in [half - 1, half, half + 1] {
                assert_eq!(format_bytes(bytes), float_text(bytes));
            }
        }
        k += 1;
    }
}

#[test]
fn large_and_scattered_amounts_read_as_floating_point_gives_them() {
    let edges = [
        (1u64 << 53) - 1,
        1 << 53,
        (1 << 53) + 1,
        (1 << 53) + 2,
        (1 << 54) + 2,
        (1 << 54) + 6,
        (1 << 60) + 128,
        (1 << 63) - 1,
        1 << 63,
        (1 << 63) + 1024,
        (1 << 63) + 1025,
        (1 << 63) + 3072,
        u64::MAX - 2047,
        u64::MAX - 1024,
        u64::MAX - 1023,
        u64::MAX - 1,
        u64::MAX,
    ];
    for bytes in edges {
        assert_eq!(format_bytes(bytes), float_text(bytes));
    }
    let mut state: u64 = 0x9e37_79b9_7f4a_7c15;
    let mut round: u32 = 0;
    while round < 200_000 {
        state = state.wrapping_mul(6364136223846793005).wrapping_add(1442695040888963407);
        let bytes = state >> (round % 64);
        assert_eq!(format_bytes(bytes), float_text(bytes));
        round += 1;
    }
}

#[test]
fn numbers_are_written_in_decimal() {
    let mut text = String::from("n=");
    append_decimal(&mut text, 0);
    text.push(',');
    append_decimal(&mut text, 7);
    text.push(',');
    append_decimal(&mut text, 1_234_567_890);
    text.push(',');
    append_decimal(&mut text, u128::MAX);
    assert_eq!(text, format!("n=0,7,1234567890,{}", u128::MAX));
    let mut text = String::new();
    append_signed(&mut text, -1);
    text.push(' ');
    append_signed(&mut text, i64::MIN);
    text.push(' ');
    append_signed(&mut text, i64::MAX);
    text.push(' ');
    append_signed(&mut text, 0);
    assert_eq!(text, format!("-1 {} {} 0", i64::MIN, i64::MAX));
}

#[test]
fn elapsed_time_is_split_into_days_hours_minutes_seconds() {
    assert_eq!(elapsed_between(0, 0), Time { days: 0, hours: 0, minutes: 0, seconds: 0 });
    assert_eq!(elapsed_between(100, 41), Time { days: 0, hours: 0, minutes: 0, seconds: 59 });
    assert_eq!(elapsed_between(86_400 + 3_600 + 60 + 1, 0), Time { days: 1, hours: 1, minutes: 1, seconds: 1 });
    assert_eq!(elapsed_between(1_000_000, 0), Time { days: 11, hours: 13, minutes: 46, seconds: 40 });
    assert_eq!(elapsed_between(1_600_000_000, 1_500_000_000), Time { days: 1157, hours: 9, minutes: 46, seconds: 40 });
    assert_eq!(elapsed_between(0, 90_061), Time { days: -1, hours: -1, minutes: -1, seconds: -1 });
    assert_eq!(
        elapsed_between(i64::MAX, i64::MIN),
        Time { days: 213_503_982_334_601, hours: 7, minutes: 0, seconds: 15 }
    );
    assert_eq!(
        elapsed_between(i64::MIN, i64::MAX),
        Time { days: -213_503_982_334_601, hours: -7, minutes: 0, seconds: -15 }
    );
}

#[test]
fn elapsed_time_agrees_with_floating_point_for_plain_spans() {
    let mut span: i64 = -200_000;
    while span <= 200_000 {
        let diff = span as f64;
        let expected = Time {
            days: (diff / 86_400.) as i64,
            hours: ((diff % 86_400.) / 3_600.) as i32,
            minutes: ((diff % 3_600.) / 60.) as i32,
            seconds: (diff % 60.) as i32,
        };
        assert_eq!(elapsed_between(span + 77, 77), expected);
        span += 7;
    }
}

#[test]
fn time_reads_as_days_hours_minutes_seconds() {
    let time = Time { days: 3, hours: 4, minutes: 0, seconds: 12 };
    assert_eq!(time.to_text(), "3 days, 4 hours, 0 minutes, 12 seconds");
    let back = Time { days: -1, hours: -23, minutes: -59, seconds: -59 };
    assert_eq!(back.to_text(), "-1 days, -23 hours, -59 minutes, -59 seconds");
    let far = Time { days: i64::MIN, hours: i32::MIN, minutes: i32::MAX, seconds: 0 };
    assert_eq!(
        far.to_text(),
        format!("{} days, {} hours, {} minutes, {} seconds", i64::MIN, i32::MIN, i32::MAX, 0)
    );
}

#[test]
fn time_since_a_moment_is_measured_by_the_clock() {
    let now = std::time::SystemTime::now()
        .duration_since(std::time::UNIX_EPOCH)
        .unwrap()
        .as_secs() as i64;
    let since = time_since_timestamp(now - 3 * 86_400 - 7_200);
    assert_eq!(since.days, 3);
    assert_eq!(since.hours, 2);
    assert_eq!(since.minutes, 0);
    assert!(0 <= since.seconds && since.seconds < 30);
    let ahead = time_since_timestamp(now + 86_400 + 600);
    assert_eq!(ahead.days, -1);
    assert_eq!(ahead.hours, 0);
    assert!(ahead.minutes == -10 || ahead.minutes == -9);
}

#[test]
fn totals_read_as_amounts_do_up_to_the_greatest_amount() {
    assert_eq!(format_total(0), "0 bytes");
    assert_eq!(format_total(500), "500 bytes");
    assert_eq!(format_total(1_500_000), "1.50 MB");
    assert_eq!(format_total(u64::MAX as u128), format_bytes(u64::MAX));
    assert_eq!(format_total(u64::MAX as u128 + 1), format_bytes(u64::MAX));
    assert_eq!(format_total(u128::MAX), "18446744073.71 GB");
}
