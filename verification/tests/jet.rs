use pac_windows::column::Retrieved;
use pac_windows::jet::{
    column_list_message, jet_check, ColumnScan, CursorStep, ScanStep, COLUMN_LIST_LEVEL, MOVE_FIRST,
    MOVE_NEXT,
};

fn number(v: u32) -> Retrieved {
    Retrieved { err: 0, actual: 4, buf: v.to_le_bytes().to_vec() }
}

fn text(s: &str) -> Retrieved {
    let mut buf = vec![0u8; 512];
    buf[..s.len()].copy_from_slice(s.as_bytes());
    Retrieved { err: 0, actual: s.len() as u32, buf }
}

fn missing(size: usize) -> Retrieved {
    Retrieved { err: -1, actual: 0, buf: vec![0; size] }
}

#[test]
fn only_negative_codes_are_errors() {
    assert!(jet_check(0, "JetInit").is_ok());
    assert!(jet_check(1006, "JetInit").is_ok());
    assert!(jet_check(i32::MAX, "JetInit").is_ok());
    assert!(jet_check(i32::MIN, "JetInit").is_err());
}

#[test]
fn error_in_words() {
    let e = jet_check(-1811, "JetAttachDatabaseW").unwrap_err();
    assert_eq!(e.op, "JetAttachDatabaseW");
    assert_eq!(e.code, -1811);
    assert_eq!(e.message(), "JetAttachDatabaseW failed with JET error -1811");
}

#[test]
fn cursor_moves() {
    assert_eq!(MOVE_FIRST, i32::MIN);
    assert_eq!(CursorStep::start(), CursorStep::Move(MOVE_FIRST));
    assert_eq!(CursorStep::moved(0), CursorStep::Read);
    assert_eq!(CursorStep::moved(-1603), CursorStep::Close);
    assert_eq!(CursorStep::read(), CursorStep::Move(1));
}

#[test]
fn columns_are_listed_by_name() {
    let scan = ColumnScan::new();
    assert_eq!(scan.step(), ScanStep::Query(COLUMN_LIST_LEVEL));
    let scan = scan.queried(0);
    assert_eq!(scan.step(), ScanStep::Walk(CursorStep::Move(MOVE_FIRST)));
    let scan = scan.moved(0);
    assert_eq!(scan.step(), ScanStep::Walk(CursorStep::Read));
    let scan = scan.row(&text("AppId"), &number(3), &number(4));
    assert_eq!(scan.step(), ScanStep::Walk(CursorStep::Move(MOVE_NEXT)));
    let scan = scan.moved(0).row(&missing(512), &number(5), &number(4));
    let scan = scan.moved(0).row(&text("TimeStamp"), &missing(4), &missing(4));
    let scan = scan.moved(-1603);
    assert_eq!(scan.step(), ScanStep::Walk(CursorStep::Close));
    let scan = scan.closed();
    assert_eq!(scan.step(), ScanStep::Done);
    let columns = scan.into_columns();
    assert_eq!(columns.len(), 2);
    assert_eq!((columns[0].name.as_str(), columns[0].id, columns[0].col_type), ("AppId", 3, 4));
    assert_eq!((columns[1].name.as_str(), columns[1].id, columns[1].col_type), ("TimeStamp", 0, 0));
}

#[test]
fn names_of_nuls_are_no_names() {
    let scan = ColumnScan::new().queried(0).moved(0).row(&text("\0\0"), &number(1), &number(1));
    assert!(scan.into_columns().is_empty());
}

#[test]
fn listing_can_fail() {
    let scan = ColumnScan::new().queried(-1305);
    assert_eq!(scan.step(), ScanStep::Failed(-1305));
    assert!(scan.into_columns().is_empty());
    assert_eq!(column_list_message(-1305), "JetGetTableColumnInfoW failed: -1305");
}
