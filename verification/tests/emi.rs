use pac_windows::emi::{
    describe_device, detect_pac, has_pac_mark, read_metadata, EmiMeasurement, PowerRatio,
    METADATA_LEN,
};

fn measurement(energy_pwh: u64, time_100ns: u64) -> EmiMeasurement {
    EmiMeasurement { energy_pwh, time_100ns }
}

fn put(buf: &mut [u8], at: usize, text: &str) {
    for (i, unit) in text.encode_utf16().enumerate() {
        buf[at + 2 * i..at + 2 * i + 2].copy_from_slice(&unit.to_le_bytes());
    }
}

fn metadata(name: &str, announced: u16) -> Vec<u8> {
    let size = 2 * name.encode_utf16().count();
    let mut buf = vec![0u8; METADATA_LEN + size];
    put(&mut buf, 4, "Microchip");
    put(&mut buf, 36, "PAC1954");
    buf[68..70].copy_from_slice(&2u16.to_le_bytes());
    buf[70..72].copy_from_slice(&announced.to_le_bytes());
    put(&mut buf, METADATA_LEN, name);
    buf
}

#[test]
fn one_watt_for_one_second() {
    let ratio = measurement(277_777_778, 10_000_000).power_watts(&measurement(0, 0)).unwrap();
    assert_eq!(ratio, PowerRatio { energy_pwh: 277_777_778, time_100ns: 10_000_000 });
    let watts = ratio.energy_pwh as f64 / ratio.time_100ns as f64 * 3.6e-2;
    assert!((watts - 1.0).abs() < 1e-6);
}

#[test]
fn no_time_no_power() {
    assert_eq!(measurement(500, 7).power_watts(&measurement(100, 7)), None);
}

#[test]
fn counters_wrap_around() {
    let ratio = measurement(4, 1).power_watts(&measurement(u64::MAX, u64::MAX - 1)).unwrap();
    assert_eq!(ratio, PowerRatio { energy_pwh: 5, time_100ns: 3 });
}

#[test]
fn differences_add_up() {
    let a = measurement(u64::MAX - 10, u64::MAX - 20);
    let b = measurement(5, 9);
    let c = measurement(30, 100);
    let ab = b.power_watts(&a).unwrap();
    let bc = c.power_watts(&b).unwrap();
    let ac = c.power_watts(&a).unwrap();
    assert_eq!(ab.energy_pwh + bc.energy_pwh, ac.energy_pwh);
    assert_eq!(ab.time_100ns + bc.time_100ns, ac.time_100ns);
}

#[test]
fn metadata_fields() {
    let buf = metadata("CPU_+5V_BULK_DRAM", 34);
    let (oem, model, revision, name) = read_metadata(&buf);
    assert_eq!(oem, "Microchip");
    assert_eq!(model, "PAC1954");
    assert_eq!(revision, 2);
    assert_eq!(name, "CPU_+5V_BULK_DRAM");
}

#[test]
fn metadata_name_needs_room() {
    assert_eq!(read_metadata(&metadata("DRAM", 8)).3, "DRAM");
    assert_eq!(read_metadata(&metadata("DRAM", 6)).3, "DRA");
    assert_eq!(read_metadata(&metadata("DRAM", 7)).3, "DRA");
    assert_eq!(read_metadata(&metadata("DRAM", 9)).3, "");
    assert_eq!(read_metadata(&metadata("DRAM", 1)).3, "");
    assert_eq!(read_metadata(&metadata("", 0)).3, "");
}

#[test]
fn full_fields_have_no_end_mark() {
    let mut buf = metadata("", 0);
    put(&mut buf, 4, "ABCDEFGHIJKLMNOP");
    assert_eq!(read_metadata(&buf).0, "ABCDEFGHIJKLMNOP");
}

#[test]
fn pac_meters_are_known_by_path() {
    assert!(detect_pac("\\\\?\\ACPI#MCHP1940#1#{45bd8344}"));
    assert!(detect_pac("\\\\?\\acpi#mchp1940#1"));
    assert!(!detect_pac("\\\\?\\intel_rapl#0"));
    assert!(has_pac_mark("xmchp1940"));
    assert!(!has_pac_mark("MCHP1940"));
}

#[test]
fn a_device_is_described() {
    let d = describe_device("ACPI#MCHP1940#3", &metadata("+18.2VB", 14));
    assert_eq!(d.path, "ACPI#MCHP1940#3");
    assert_eq!(d.oem, "Microchip");
    assert_eq!(d.model, "PAC1954");
    assert_eq!(d.hw_revision, 2);
    assert_eq!(d.channel_name, "+18.2VB");
    assert!(d.is_pac);
    assert!(!describe_device("RAPL", &metadata("PP0", 6)).is_pac);
}
