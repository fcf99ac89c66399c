use i3blocks_cpu::load::CpuLoadData;
use i3blocks_cpu::load::LoadSampler;
use i3blocks_cpu::render::format_percent;
use i3blocks_cpu::render::format_temp;
use i3blocks_cpu::render::tick_output;
use i3blocks_cpu::temp::TemperatureSampler;

#[test]
fn percent_field_is_right_aligned_to_six_characters() {
    // 3.10% occupies six characters before the percent sign is appended
    assert_eq!(format_percent(310), "  3.10%");
    assert_eq!(format_percent(10000), "100.00%");
}

#[test]
fn percent_field_edge_values() {
    assert_eq!(format_percent(0), "  0.00%");
    assert_eq!(format_percent(5), "  0.05%");
    assert_eq!(format_percent(9999), " 99.99%");
    assert_eq!(format_percent(12345), "123.45%");
}

#[test]
fn degrees_carry_the_celsius_suffix() {
    assert_eq!(format_temp(45), "45\u{b0}C");
    assert_eq!(format_temp(0), "0\u{b0}C");
    assert_eq!(format_temp(-5), "-5\u{b0}C");
}

#[test]
fn tick_formats_one_status_line() {
    let mut load = LoadSampler::new();
    load.sample(CpuLoadData::new(10000, 8766));
    let mut temp = TemperatureSampler::new();
    temp.sample(&vec![b"45000\n".to_vec()]);
    assert_eq!(tick_output(&load, &temp), Some(" 12.34% 45\u{b0}C".to_string()));
}

#[test]
fn tick_with_no_sensor_shows_sentinel_not_zero_degrees() {
    let mut load = LoadSampler::new();
    load.sample(CpuLoadData::new(100, 50));
    let temp = TemperatureSampler::new();
    let line = tick_output(&load, &temp).unwrap();
    assert_eq!(line, " 50.00% N/A\u{b0}C");
}

#[test]
fn tick_with_degenerate_window_is_skipped() {
    let load = LoadSampler::new();
    let temp = TemperatureSampler::new();
    assert_eq!(tick_output(&load, &temp), None);
}
