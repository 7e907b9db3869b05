use nothing_de::stats::{
    battery_reading, cpu_times, cpu_times_fit, is_whitespace, parse_cpu_fields, parse_meminfo, parse_u64,
    split_words, trim_chars,
};

fn chars(s: &str) -> Vec<char> {
    s.chars().collect()
}

#[test]
fn meminfo_gives_total_and_available() {
    let text = "MemTotal:       16384000 kB\nMemFree:         1024000 kB\nMemAvailable:    4096000 kB\nBuffers: 1 kB\n";
    assert_eq!(parse_meminfo(text), (16_384_000, 4_096_000));
}

#[test]
fn meminfo_without_the_fields_reads_zero() {
    assert_eq!(parse_meminfo(""), (0, 0));
    assert_eq!(parse_meminfo("MemFree: 12 kB\n"), (0, 0));
    assert_eq!(parse_meminfo("MemTotal:\nMemAvailable: lots kB"), (0, 0));
}

#[test]
fn meminfo_last_line_of_a_field_wins() {
    assert_eq!(parse_meminfo("MemTotal: 10 kB\nMemTotal: 20 kB\nMemAvailable: 5 kB"), (20, 5));
}

#[test]
fn meminfo_reads_crlf_lines_and_needs_the_key_at_line_start() {
    assert_eq!(parse_meminfo("MemTotal: 30 kB\r\nMemAvailable: 7\r\n"), (30, 7));
    assert_eq!(parse_meminfo(" MemTotal: 30 kB\nXMemAvailable: 7"), (0, 0));
    assert_eq!(parse_meminfo("MemTotal:30 kB\nMemAvailable: 7 kB"), (0, 7));
}

#[test]
fn cpu_line_counters_are_read() {
    let text = "cpu  10 20 30 40 50 60 70 80 0 0\ncpu0 5 5 5 5 5 5 5 5 0 0\n";
    let f = parse_cpu_fields(text).unwrap();
    assert_eq!(f, vec![10, 20, 30, 40, 50, 60, 70, 80, 0, 0]);
    assert!(cpu_times_fit(&f));
    assert_eq!(cpu_times(&f), Some((360, 90)));
}

#[test]
fn cpu_line_must_come_first_and_be_the_aggregate() {
    assert_eq!(parse_cpu_fields(""), None);
    assert_eq!(parse_cpu_fields("\ncpu 1 2 3 4"), None);
    assert_eq!(parse_cpu_fields("cpu0 1 2 3 4"), None);
    assert_eq!(parse_cpu_fields("intr 1 2 3 4\ncpu 1 2 3 4"), None);
    assert_eq!(parse_cpu_fields("   \ncpu 1 2 3 4"), None);
}

#[test]
fn cpu_line_skips_words_that_are_not_numbers() {
    assert_eq!(parse_cpu_fields("cpu 1 x 2 -3 3 4"), Some(vec![1, 2, 3, 4]));
    assert_eq!(parse_cpu_fields("  cpu\t7"), Some(vec![7]));
    assert_eq!(parse_cpu_fields("cpu"), Some(vec![]));
}

#[test]
fn cpu_times_need_four_counters() {
    assert_eq!(cpu_times(&vec![1, 2, 3]), None);
    assert_eq!(cpu_times(&vec![1, 2, 3, 4]), Some((10, 4)));
    assert_eq!(cpu_times(&vec![1, 2, 3, 4, 5]), Some((15, 9)));
    assert_eq!(cpu_times(&vec![1, 2, 3, 4, 5, 6, 7, 8, 1000]), Some((36, 9)));
}

#[test]
fn cpu_sums_that_overflow_are_detected() {
    assert!(!cpu_times_fit(&vec![u64::MAX, 1, 0, 0]));
    assert!(cpu_times_fit(&vec![u64::MAX, 0, 0, 0]));
    assert!(cpu_times_fit(&vec![u64::MAX, u64::MAX, u64::MAX]));
    assert!(cpu_times_fit(&vec![0, 0, 0, 0, 0, 0, 0, u64::MAX, 5, 5]));
    assert!(!cpu_times_fit(&vec![0, 0, 0, 1, 0, 0, 0, u64::MAX]));
}

#[test]
fn battery_status_is_read_case_insensitively() {
    assert_eq!(battery_reading(Some("87\n"), Some("Charging\n")), (87, true));
    assert_eq!(battery_reading(Some("100"), Some("Full")), (100, true));
    assert_eq!(battery_reading(Some(" 5 "), Some("FULL")), (5, true));
    assert_eq!(battery_reading(Some("40\n"), Some("Discharging\n")), (40, false));
    assert_eq!(battery_reading(Some("40\n"), Some("Not charging\n")), (40, false));
    assert_eq!(battery_reading(Some("40"), Some("charging now")), (40, false));
}

#[test]
fn battery_capacity_falls_back_to_zero() {
    assert_eq!(battery_reading(Some("abc"), None), (0, false));
    assert_eq!(battery_reading(Some("300"), None), (0, false));
    assert_eq!(battery_reading(Some("255"), None), (255, false));
    assert_eq!(battery_reading(Some("+9"), None), (9, false));
    assert_eq!(battery_reading(Some(""), Some("")), (0, false));
    assert_eq!(battery_reading(None, None), (0, false));
}

#[test]
fn unsigned_numbers_parse_as_the_standard_library_does() {
    for s in ["0", "7", "007", "+12", "+", "", "-1", "1 2", "18446744073709551615", "18446744073709551616", "99999999999999999999", "12a", "+-1"] {
        assert_eq!(parse_u64(&chars(s)), s.parse::<u64>().ok(), "text {:?}", s);
    }
}

#[test]
fn words_split_on_any_white_space() {
    let w = split_words(&chars("  MemTotal:\t 123\u{00A0}kB \n"));
    let w: Vec<String> = w.into_iter().map(|v| v.into_iter().collect()).collect();
    assert_eq!(w, vec!["MemTotal:", "123", "kB"]);
    assert!(split_words(&chars(" \t\r\n")).is_empty());
}

#[test]
fn white_space_matches_the_standard_library() {
    for c in ['\t', '\n', '\u{0B}', '\u{0C}', '\r', ' ', '\u{85}', '\u{A0}', '\u{1680}', '\u{2000}', '\u{200A}', '\u{2028}',
        '\u{2029}', '\u{202F}', '\u{205F}', '\u{3000}', 'a', '0', '\u{200B}', '\u{180E}', '\u{FEFF}', '\u{1F}']
    {
        assert_eq!(is_whitespace(c), c.is_whitespace(), "char {:?}", c);
    }
}

#[test]
fn trimming_matches_the_standard_library() {
    for s in ["", "   ", " a ", "\tab c\n", "x", "\u{3000}y\u{2029}"] {
        let t: String = trim_chars(&chars(s)).into_iter().collect();
        assert_eq!(t, s.trim(), "text {:?}", s);
    }
}
