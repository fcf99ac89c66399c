use i3blocks_cpu::load::CpuLoadData;
use i3blocks_cpu::load::LoadSampler;
use i3blocks_cpu::load::parse_cpu_counters;
use i3blocks_cpu::parse::ParseError;
use i3blocks_cpu::parse::parse_u64;
use i3blocks_cpu::parse::split_tokens;
use i3blocks_cpu::parse::trim_bytes;
use i3blocks_cpu::temp::TemperatureSampler;
use i3blocks_cpu::temp::is_sensor_input_name;
use i3blocks_cpu::temp::parse_milli_degrees;

#[test]
fn window_from_spec_counters_is_seventy_five_percent() {
    // P: user=100 nice=0 system=50 idle=800 iowait=50 irq=0 softirq=0 steal=0
    // C: user=110 nice=0 system=55 idle=805 iowait=50 irq=0 softirq=0 steal=0
    let p = parse_cpu_counters(b"cpu  100 0 50 800 50 0 0 0 0 0").unwrap();
    assert_eq!(p.total_time, 1000);
    assert_eq!(p.idle_time, 850);
    let c = parse_cpu_counters(b"cpu  110 0 55 805 50 0 0 0 0 0").unwrap();
    assert_eq!(c.total_time, 1020);
    assert_eq!(c.idle_time, 855);
    let mut s = LoadSampler::new();
    s.sample(p);
    s.sample(c);
    // delta_total = 20, delta_idle = 5, utilization = 75.00%
    assert_eq!(s.utilization_percent(), Some(7500));
}

#[test]
fn percentage_is_invariant_under_uniform_scaling() {
    // the window (delta_total=20, delta_idle=5) scaled by 10
    let mut a = LoadSampler::new();
    a.sample(CpuLoadData::new(1000, 850));
    a.sample(CpuLoadData::new(1020, 855));
    let mut b = LoadSampler::new();
    b.sample(CpuLoadData::new(1000, 850));
    b.sample(CpuLoadData::new(1200, 900));
    assert_eq!(a.utilization_percent(), b.utilization_percent());
    assert_eq!(a.utilization_percent(), Some(7500));
}

#[test]
fn unchanged_counters_give_no_percentage() {
    let mut s = LoadSampler::new();
    s.sample(CpuLoadData::new(1000, 850));
    s.sample(CpuLoadData::new(1000, 850));
    assert_eq!(s.utilization_percent(), None);
}

#[test]
fn cold_start_measures_against_zero_baseline() {
    let mut s = LoadSampler::new();
    s.sample(CpuLoadData::new(1000, 850));
    // 150 busy units out of 1000 since boot: 15.00%
    assert_eq!(s.utilization_percent(), Some(1500));
}

#[test]
fn fully_busy_window_is_one_hundred_percent() {
    let mut s = LoadSampler::new();
    s.sample(CpuLoadData::new(1000, 850));
    s.sample(CpuLoadData::new(1200, 850));
    assert_eq!(s.utilization_percent(), Some(10000));
}

#[test]
fn fully_idle_window_is_zero_percent() {
    let mut s = LoadSampler::new();
    s.sample(CpuLoadData::new(1000, 850));
    s.sample(CpuLoadData::new(1200, 1050));
    assert_eq!(s.utilization_percent(), Some(0));
}

#[test]
fn backwards_counters_give_no_percentage() {
    let mut s = LoadSampler::new();
    s.sample(CpuLoadData::new(1000, 850));
    s.sample(CpuLoadData::new(900, 800));
    assert_eq!(s.utilization_percent(), None);
}

#[test]
fn parse_counter_line_sums_eight_fields() {
    let line = b"cpu  10 0 20 30 5 1 2 3 12 7\ncpu0 1 2 3 4 5 6 7 8";
    let d = parse_cpu_counters(line).unwrap();
    assert_eq!(d.total_time, 71);
    assert_eq!(d.idle_time, 35);
}

#[test]
fn parse_counter_line_too_short_fails() {
    assert_eq!(parse_cpu_counters(b"cpu  10 0 20 30"), Err(ParseError));
}

#[test]
fn parse_counter_line_bad_field_fails() {
    assert_eq!(parse_cpu_counters(b"cpu  10 0 2x 30 5 1 2 3 0 0"), Err(ParseError));
}

#[test]
fn parse_counter_line_overflowing_field_fails() {
    assert_eq!(
        parse_cpu_counters(b"cpu  99999999999999999999999 0 1 2 3 4 5 6 0 0"),
        Err(ParseError)
    );
}

#[test]
fn parse_u64_reads_decimal_numerals() {
    assert_eq!(parse_u64(b"0"), Some(0));
    assert_eq!(parse_u64(b"123"), Some(123));
    assert_eq!(parse_u64(b"18446744073709551615"), Some(u64::MAX));
    assert_eq!(parse_u64(b"18446744073709551616"), None);
    assert_eq!(parse_u64(b""), None);
    assert_eq!(parse_u64(b"12a"), None);
}

#[test]
fn split_keeps_empty_tokens() {
    let toks = split_tokens(b"cpu  10 0");
    let expected: Vec<Vec<u8>> =
        vec![b"cpu".to_vec(), b"".to_vec(), b"10".to_vec(), b"0".to_vec()];
    assert_eq!(toks, expected);
}

#[test]
fn trim_removes_surrounding_whitespace() {
    assert_eq!(trim_bytes(b" \t42000\n"), b"42000");
    assert_eq!(trim_bytes(b"   \n"), b"");
}

#[test]
fn temperature_reports_maximum_of_sources() {
    // sources reporting {42000, 51000, 37000} milli-degrees read 51 whole degrees
    let contents: Vec<Vec<u8>> =
        vec![b"42000\n".to_vec(), b"51000\n".to_vec(), b"37000\n".to_vec()];
    let mut t = TemperatureSampler::new();
    t.sample(&contents);
    assert_eq!(t.in_degree_c(), Some(51));
}

#[test]
fn malformed_source_is_skipped() {
    let contents: Vec<Vec<u8>> =
        vec![b"42000\n".to_vec(), b"garbage\n".to_vec(), b"51000\n".to_vec()];
    let mut t = TemperatureSampler::new();
    t.sample(&contents);
    assert_eq!(t.in_degree_c(), Some(51));
}

#[test]
fn empty_source_set_yields_sentinel() {
    let contents: Vec<Vec<u8>> = Vec::new();
    let mut t = TemperatureSampler::new();
    t.sample(&contents);
    assert_eq!(t.in_degree_c(), None);
}

#[test]
fn degrees_truncate_toward_zero() {
    let mut t = TemperatureSampler::new();
    t.sample(&vec![b"45999".to_vec()]);
    assert_eq!(t.in_degree_c(), Some(45));
    t.sample(&vec![b"-1500".to_vec()]);
    assert_eq!(t.in_degree_c(), Some(-1));
}

#[test]
fn parse_milli_degrees_reads_signed_integers() {
    assert_eq!(parse_milli_degrees(b"45500\n"), Ok(45500));
    assert_eq!(parse_milli_degrees(b"  -5000 "), Ok(-5000));
    assert_eq!(parse_milli_degrees(b"abc"), Err(ParseError));
    assert_eq!(parse_milli_degrees(b""), Err(ParseError));
    assert_eq!(parse_milli_degrees(b"-"), Err(ParseError));
    assert_eq!(parse_milli_degrees(b"99999999999999999999"), Err(ParseError));
}

#[test]
fn sensor_input_names_end_with_input() {
    assert!(is_sensor_input_name(b"temp1_input"));
    assert!(is_sensor_input_name(b"input"));
    assert!(!is_sensor_input_name(b"temp1_label"));
    assert!(!is_sensor_input_name(b"inp"));
}
