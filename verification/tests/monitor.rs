use pac_windows::emi::{EmiDevice, EmiMeasurement, PowerRatio};
use pac_windows::monitor::{
    banner_line, contains_any, csv_header_line, csv_sample_line, filter_devices, parse_filter,
    power_line, sample_lines, select_devices, start_lines, Monitor, MonitorStep,
};
use pac_windows::text::split_text;

const RAILS: [&str; 8] = [
    "+18.2VB",
    "CPU_+18.2V_VCCCORE",
    "CPU_+18.2VB_VCCSA",
    "CPU_+18.2VB_VCCGT",
    "CPU_+18.2_VCCLPECORE",
    "CPU_+5V_BULK_DRAM",
    "DISPLAY_+18.2VB_EDP",
    "DISPLAY_+3VS_EDP",
];

fn device(name: &str, is_pac: bool) -> EmiDevice {
    EmiDevice {
        path: String::new(),
        oem: String::new(),
        model: String::new(),
        hw_revision: 0,
        channel_name: name.to_string(),
        is_pac,
    }
}

fn rails() -> Vec<EmiDevice> {
    RAILS.iter().map(|name| device(name, true)).collect()
}

fn names(devices: &[EmiDevice]) -> Vec<&str> {
    devices.iter().map(|d| d.channel_name.as_str()).collect()
}

fn filtered(filter: &str) -> Vec<String> {
    let kept = filter_devices(rails(), &Some(filter.to_string()));
    names(&kept).iter().map(|n| n.to_string()).collect()
}

fn owned(parts: &[&str]) -> Vec<String> {
    parts.iter().map(|p| p.to_string()).collect()
}

fn round(energy: u64, time: u64) -> Vec<EmiMeasurement> {
    vec![EmiMeasurement { energy_pwh: energy, time_100ns: time }]
}

#[test]
fn only_pac_meters_are_shown_by_default() {
    let all = vec![device("PP0", false), device("DRAM", true), device("PP1", false)];
    assert_eq!(names(&select_devices(all.clone(), false)), vec!["DRAM"]);
    assert_eq!(names(&select_devices(all, true)), vec!["PP0", "DRAM", "PP1"]);
}

#[test]
fn filter_of_two_rails() {
    assert_eq!(filtered("vcccore,dram"), owned(&["CPU_+18.2V_VCCCORE", "CPU_+5V_BULK_DRAM"]));
}

#[test]
fn filters_ignore_case_and_spaces() {
    assert_eq!(filtered(" DrAm ,\tedp "), owned(&[RAILS[5], RAILS[6], RAILS[7]]));
    assert_eq!(filtered("nothing"), owned(&[]));
}

#[test]
fn an_empty_pattern_lets_all_pass() {
    assert_eq!(filtered("").len(), 8);
    assert_eq!(filtered("nothing,").len(), 8);
    assert_eq!(filter_devices(rails(), &None).len(), 8);
}

#[test]
fn filtering_again_changes_nothing() {
    let filter = Some("vcc".to_string());
    let once = filter_devices(rails(), &filter);
    let twice = filter_devices(once.clone(), &filter);
    assert_eq!(names(&once), names(&twice));
    assert_eq!(once.len(), 4);
}

#[test]
fn a_joined_filter_passes_what_either_passes() {
    for name in RAILS {
        let passes = |f: &str| {
            !filter_devices(vec![device(name, true)], &Some(f.to_string())).is_empty()
        };
        assert_eq!(passes("edp,cpu"), passes("edp") || passes("cpu"));
    }
}

#[test]
fn ascii_case_makes_no_difference() {
    for filter in ["vcccore,dram", "VCCCORE,DRAM", "VccCore,dRAM"] {
        assert_eq!(filtered(filter), filtered("vcccore,dram"));
    }
}

#[test]
fn letters_outside_ascii_are_lowered() {
    let kept = filter_devices(vec![device("K\u{c4}LTE", true)], &Some("k\u{e4}l".to_string()));
    assert_eq!(kept.len(), 1);
}

#[test]
fn patterns_are_trimmed() {
    assert_eq!(parse_filter("a, b ,,\u{a0}c d\u{3000}"), owned(&["a", "b", "", "c d"]));
    assert_eq!(parse_filter(""), owned(&[""]));
}

#[test]
fn any_pattern_is_enough() {
    assert!(contains_any("bulk_dram", &owned(&["x", "dram"])));
    assert!(!contains_any("bulk_dram", &owned(&["x", "y"])));
    assert!(!contains_any("bulk_dram", &Vec::new()));
}

#[test]
fn csv_lines() {
    let devices = vec![device(" VCCSA ", true), device("DRAM", true)];
    let head = csv_header_line(&devices);
    assert_eq!(head, "timestamp_ms,VCCSA_watts,DRAM_watts");
    let sample = csv_sample_line(1003, &owned(&["1.2500", "0.0000"]));
    assert_eq!(sample, "1003,1.2500,0.0000");
    assert_eq!(split_text(&head, ',').len(), split_text(&sample, ',').len());
    assert_eq!(csv_header_line(&Vec::new()), "timestamp_ms");
}

#[test]
fn powers_are_those_since_the_round_before() {
    let monitor = Monitor::new(round(100, 10), None);
    let (powers, monitor) = monitor.sampled(round(150, 30));
    assert_eq!(powers, vec![Some(PowerRatio { energy_pwh: 50, time_100ns: 20 })]);
    let (powers, monitor) = monitor.sampled(round(150, 30));
    assert_eq!(powers, vec![None]);
    let (powers, _) = monitor.sampled(round(151, 31));
    assert_eq!(powers, vec![Some(PowerRatio { energy_pwh: 1, time_100ns: 1 })]);
}

fn samples_taken(count: Option<u64>, at_most: u64) -> u64 {
    let mut monitor = Monitor::new(round(0, 0), count);
    let mut taken: u64 = 0;
    while taken < at_most && monitor.step() == MonitorStep::Sample {
        taken += 1;
        let (_, next) = monitor.sampled(round(taken, taken));
        monitor = next;
    }
    taken
}

#[test]
fn sampling_stops_after_the_count() {
    assert_eq!(samples_taken(Some(10), 50), 10);
    assert_eq!(samples_taken(Some(1), 50), 1);
    assert_eq!(samples_taken(Some(u64::MAX), 50), 50);
    assert_eq!(samples_taken(None, 50), 50);
}

#[test]
fn a_count_of_zero_takes_no_sample() {
    assert_eq!(samples_taken(Some(0), 50), 0);
    assert_eq!(Monitor::new(round(0, 0), Some(0)).step(), MonitorStep::Done);
    assert_eq!(Monitor::new(round(0, 0), Some(1)).step(), MonitorStep::Sample);
}

#[test]
fn the_start_of_a_monitoring() {
    let devices = vec![device("DRAM", true)];
    assert_eq!(
        start_lines(&devices, false, 500),
        owned(&["Monitoring 1 channel(s) every 500ms. Press Ctrl+C to stop.", ""])
    );
    assert_eq!(start_lines(&devices, true, 500), owned(&["timestamp_ms,DRAM_watts"]));
    assert_eq!(start_lines(&Vec::new(), true, 500), owned(&["No matching EMI devices found."]));
    assert_eq!(
        banner_line(8, 1000),
        "Monitoring 8 channel(s) every 1000ms. Press Ctrl+C to stop."
    );
}

#[test]
fn power_lines_line_up() {
    let watts = format!("{:.3}", 1.5f64);
    assert_eq!(power_line("DRAM", &watts), format!("  {:<35} {:>8.3} W", "DRAM", 1.5f64));
    let long = "x".repeat(40);
    assert_eq!(power_line(&long, "123456.789"), format!("  {} 123456.789 W", long));
}

#[test]
fn a_sample_of_several_channels_has_a_total() {
    let devices = vec![device(" A ", true), device("B", true)];
    let lines = sample_lines("2.0", &devices, &owned(&["1.000", "2.000"]), "3.000");
    assert_eq!(
        lines,
        vec![
            "[2.0s]".to_string(),
            format!("  {:<35} {:>8} W", "A", "1.000"),
            format!("  {:<35} {:>8} W", "B", "2.000"),
            format!("  {:<35} {:>8} W", "TOTAL", "3.000"),
            String::new(),
        ]
    );
}

#[test]
fn a_sample_of_one_channel_has_no_total() {
    let lines = sample_lines("1.0", &vec![device("A", true)], &owned(&["1.000"]), "1.000");
    assert_eq!(lines.len(), 3);
    assert_eq!(lines[0], "[1.0s]");
    assert_eq!(lines[2], "");
}
