use pac_windows::database::SrumDatabase;
use pac_windows::opening::{OpenCall, OpenStep, Opening};
use pac_windows::srum::{HEADER_LEN, PAGE_SIZE_OFFSET};
use pac_windows::utf16::to_wide;

const STEPS: [OpenStep; 8] = [
    OpenStep::CreateInstance,
    OpenStep::SetPageSize,
    OpenStep::DisableRecovery,
    OpenStep::Init,
    OpenStep::BeginSession,
    OpenStep::AttachDatabase,
    OpenStep::OpenDatabase,
    OpenStep::Opened,
];

fn header(page_size: u32) -> Vec<u8> {
    let mut data = vec![0u8; HEADER_LEN];
    data[PAGE_SIZE_OFFSET..].copy_from_slice(&page_size.to_le_bytes());
    data
}

fn opening() -> Opening {
    SrumDatabase::open("copy.dat", &header(8192)).unwrap()
}

#[test]
fn seven_calls_open_a_database() {
    let mut opening = opening();
    assert_eq!(opening.page_size(), 8192);
    for step in &STEPS[..7] {
        assert_eq!(opening.step(), *step);
        opening = opening.returned(0).unwrap();
    }
    assert_eq!(opening.step(), OpenStep::Opened);
    assert!(matches!(opening.call(), OpenCall::Nothing));
}

#[test]
fn calls_and_their_arguments() {
    let opening = opening();
    assert!(matches!(opening.call(), OpenCall::CreateInstance(n) if n == to_wide("pac_srum")));
    let opening = opening.returned(0).unwrap();
    assert!(matches!(opening.call(), OpenCall::SetParameter(64, 8192, None)));
    let opening = opening.returned(0).unwrap();
    assert!(matches!(
        opening.call(),
        OpenCall::SetParameter(34, 0, Some(t)) if t == vec![0x30, 0]
    ));
    let opening = opening.returned(0).unwrap();
    assert!(matches!(opening.call(), OpenCall::Init));
    let opening = opening.returned(0).unwrap();
    assert!(matches!(opening.call(), OpenCall::BeginSession));
    let opening = opening.returned(0).unwrap();
    assert!(matches!(opening.call(), OpenCall::AttachDatabase(p, 1) if p == to_wide("copy.dat")));
    let opening = opening.returned(0).unwrap();
    assert!(matches!(opening.call(), OpenCall::OpenDatabase(p, 1) if p == to_wide("copy.dat")));
}

#[test]
fn the_first_failure_ends_it() {
    let ops = [
        "JetCreateInstanceW",
        "JetSetSystemParameter(PageSize)",
        "JetSetSystemParameter(Recovery)",
        "JetInit",
        "JetBeginSessionW",
        "JetAttachDatabaseW",
        "JetOpenDatabaseW",
    ];
    for (done, op) in ops.iter().enumerate() {
        let mut opening = opening();
        for _ in 0..done {
            opening = opening.returned(1).unwrap();
        }
        let e = match opening.returned(-550) {
            Ok(_) => panic!("went on"),
            Err(e) => e,
        };
        assert_eq!(e.op, *op);
        assert_eq!(e.message(), format!("{} failed with JET error -550", op));
    }
}

#[test]
fn steps_follow_each_other() {
    for i in 0..7 {
        assert_eq!(STEPS[i].advance(), STEPS[i + 1]);
    }
    assert_eq!(OpenStep::Opened.advance(), OpenStep::Opened);
    assert_eq!(OpenStep::Opened.op_name(), "");
}

#[test]
fn a_bad_page_size_stops_before_the_first_call() {
    let e = match SrumDatabase::open("copy.dat", &header(0)) {
        Ok(_) => panic!("started"),
        Err(e) => e,
    };
    assert_eq!(e.message(), "Unexpected ESE page size 0 in database header");
}
