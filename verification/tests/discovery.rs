use pac_windows::discovery::{
    discover_devices, enumerate_emi_paths, path_in_detail, DiscoveryStep, PathStep, PATH_OFFSET,
};
use pac_windows::emi::METADATA_LEN;

fn detail(path: &str) -> Vec<u8> {
    let mut buf = vec![8u8, 0, 0, 0];
    for unit in path.encode_utf16() {
        buf.extend(unit.to_le_bytes());
    }
    buf.extend([0, 0]);
    buf
}

fn metadata(name: &str) -> Vec<u8> {
    let mut buf = vec![0u8; METADATA_LEN];
    buf[70] = 2 * name.len() as u8;
    for b in name.bytes() {
        buf.extend([b, 0]);
    }
    buf
}

#[test]
fn paths_in_details() {
    assert_eq!(PATH_OFFSET, 4);
    assert_eq!(path_in_detail(&detail("\\\\?\\acpi#1")), "\\\\?\\acpi#1");
    assert_eq!(path_in_detail(&[8, 0, 0, 0]), "");
    assert_eq!(path_in_detail(&[8, 0, 0, 0, 0x41]), "");
}

#[test]
fn interfaces_are_walked_through() {
    let walk = enumerate_emi_paths();
    assert_eq!(walk.step(), PathStep::Interface(0));
    let walk = walk.interface(true);
    assert_eq!(walk.step(), PathStep::Size);
    let first = detail("one");
    let walk = walk.sized(first.len() as u32);
    assert_eq!(walk.step(), PathStep::Detail(first.len() as u32));
    let walk = walk.detailed(&Some(first));
    assert_eq!(walk.step(), PathStep::Interface(1));
    let walk = walk.interface(true).sized(0);
    assert_eq!(walk.step(), PathStep::Interface(2));
    let walk = walk.interface(true).sized(20).detailed(&None);
    assert_eq!(walk.step(), PathStep::Interface(3));
    let last = detail("two");
    let walk = walk.interface(true).sized(last.len() as u32).detailed(&Some(last));
    let walk = walk.interface(false);
    assert_eq!(walk.step(), PathStep::Done);
    assert_eq!(walk.into_paths(), vec!["one".to_string(), "two".to_string()]);
}

#[test]
fn devices_are_described_in_the_order_of_their_paths() {
    let paths = vec!["MCHP1940#a".to_string(), "gone".to_string(), "rapl".to_string()];
    let found = discover_devices(paths);
    assert_eq!(found.step(), DiscoveryStep::Open(0));
    assert_eq!(found.path(), "MCHP1940#a");
    let found = found.opened(true);
    assert_eq!(found.step(), DiscoveryStep::ReadVersion);
    let found = found.version(1);
    assert_eq!(found.step(), DiscoveryStep::ReadMetadata);
    let found = found.metadata(&metadata("DRAM"));
    assert_eq!(found.step(), DiscoveryStep::Open(1));
    assert_eq!(found.path(), "gone");
    let found = found.opened(false);
    assert_eq!(found.step(), DiscoveryStep::Open(2));
    let found = found.opened(true).version(2).metadata(&metadata("PP0"));
    assert_eq!(found.step(), DiscoveryStep::Done);
    let devices = found.into_devices();
    assert_eq!(devices.len(), 2);
    assert_eq!(devices[0].path, "MCHP1940#a");
    assert_eq!(devices[0].channel_name, "DRAM");
    assert!(devices[0].is_pac);
    assert_eq!(devices[1].path, "rapl");
    assert_eq!(devices[1].channel_name, "PP0");
    assert!(!devices[1].is_pac);
}

#[test]
fn version_zero_is_not_supported() {
    let found = discover_devices(vec!["p".to_string()]).opened(true).version(0);
    assert_eq!(found.step(), DiscoveryStep::Unsupported(0));
    assert_eq!(found.unsupported_message(), "Unsupported EMI version 0 for p");
}

#[test]
fn without_paths_there_is_nothing_to_do() {
    let found = discover_devices(Vec::new());
    assert_eq!(found.step(), DiscoveryStep::Done);
    assert!(found.into_devices().is_empty());
}
