use pac_windows::column::{ColumnInfo, ColumnValue, Retrieved};
use pac_windows::database::{
    find_column, find_id_columns, name_of_blob, IdColumns, IdMapLoad, LoadStep, SrumDatabase,
};
use pac_windows::jet::{CursorStep, MOVE_FIRST, MOVE_NEXT, READ_ONLY};
use pac_windows::utf16::to_wide;

const SYSTEM_SID: [u8; 12] = [1, 1, 0, 0, 0, 0, 0, 5, 18, 0, 0, 0];

fn number(v: u32) -> Retrieved {
    Retrieved { err: 0, actual: 4, buf: v.to_le_bytes().to_vec() }
}

fn blob(data: &[u8]) -> Retrieved {
    let mut buf = vec![0u8; 4096];
    buf[..data.len()].copy_from_slice(data);
    Retrieved { err: 0, actual: data.len() as u32, buf }
}

fn missing(size: usize) -> Retrieved {
    Retrieved { err: -1, actual: 0, buf: vec![0; size] }
}

fn column(name: &str, id: u32) -> ColumnInfo {
    ColumnInfo { name: name.to_string(), id, col_type: 4 }
}

fn id_table() -> Vec<ColumnInfo> {
    vec![column("IdType", 1), column("IdIndex", 2), column("IdBlob", 3)]
}

fn walking() -> IdMapLoad {
    SrumDatabase::load_id_map().opened(0).listed(&id_table())
}

#[test]
fn columns_are_found_by_name() {
    let columns = vec![column("A", 1), column("B", 2), column("A", 3)];
    assert_eq!(find_column(&columns, "A"), Some(1));
    assert_eq!(find_column(&columns, "B"), Some(2));
    assert_eq!(find_column(&columns, "a"), None);
    assert_eq!(find_column(&Vec::new(), "A"), None);
}

#[test]
fn the_type_column_may_be_missing() {
    assert_eq!(
        find_id_columns(&id_table()),
        Some(IdColumns { index: 2, blob: 3, id_type: Some(1) })
    );
    let two = vec![column("IdBlob", 7), column("IdIndex", 8)];
    assert_eq!(find_id_columns(&two), Some(IdColumns { index: 8, blob: 7, id_type: None }));
    assert_eq!(find_id_columns(&vec![column("IdBlob", 7), column("IdType", 1)]), None);
    assert_eq!(find_id_columns(&vec![column("IdIndex", 7)]), None);
}

#[test]
fn blobs_are_named_by_type_or_form() {
    assert_eq!(name_of_blob(3, &Some(SYSTEM_SID.to_vec())), "S-1-5-18");
    assert_eq!(name_of_blob(0, &Some(SYSTEM_SID.to_vec())), "S-1-5-18");
    assert_eq!(name_of_blob(0, &Some(b"s\0v\0c\0".to_vec())), "svc");
    assert_eq!(name_of_blob(3, &Some(b"s\0v\0c\0".to_vec())), "");
    assert_eq!(name_of_blob(0, &None), "");
}

#[test]
fn names_are_loaded() {
    let load = SrumDatabase::load_id_map();
    assert_eq!(load.step(), LoadStep::OpenTable(READ_ONLY));
    assert_eq!(load.wide_name(), to_wide("SruDbIdMapTable"));
    let load = load.opened(0);
    assert_eq!(load.step(), LoadStep::ListColumns);
    let load = load.listed(&id_table());
    let ids = IdColumns { index: 2, blob: 3, id_type: Some(1) };
    assert_eq!(load.step(), LoadStep::Walk(CursorStep::Move(MOVE_FIRST), ids));
    let load = load.moved(0);
    assert_eq!(load.step(), LoadStep::Walk(CursorStep::Read, ids));
    let load = load.row(&number(5), &blob(&SYSTEM_SID), &Some(number(3)));
    assert_eq!(load.step(), LoadStep::Walk(CursorStep::Move(MOVE_NEXT), ids));
    let load = load.moved(0).row(&number(6), &blob(b"a\0p\0p\0"), &Some(number(0)));
    let load = load.moved(-1603);
    assert_eq!(load.step(), LoadStep::Walk(CursorStep::Close, ids));
    let load = load.closed();
    assert_eq!(load.step(), LoadStep::Done);
    let db = load.into_database();
    assert_eq!(db.name_count(), 2);
    assert_eq!(db.resolve_id(5), Some("S-1-5-18"));
    assert_eq!(db.resolve_id(6), Some("app"));
    assert_eq!(db.resolve_id(7), None);
}

#[test]
fn the_last_name_wins() {
    let load = walking().moved(0).row(&number(5), &blob(b"old"), &Some(number(0)));
    let load = load.moved(0).row(&number(5), &blob(b"new"), &Some(number(0)));
    let load = load.moved(0).row(&number(5), &missing(4096), &Some(number(0)));
    let db = load.into_database();
    assert_eq!(db.name_count(), 1);
    assert_eq!(db.resolve_id(5), Some("new"));
}

#[test]
fn empty_names_are_passed_over() {
    let load = walking().moved(0).row(&number(5), &blob(b"\0\0"), &Some(number(0)));
    assert_eq!(load.into_database().name_count(), 0);
}

#[test]
fn unreadable_cells_count_as_zero() {
    let load = walking().moved(0).row(&missing(4), &blob(b"zero"), &Some(missing(4)));
    assert_eq!(load.into_database().resolve_id(0), Some("zero"));
}

#[test]
fn the_table_of_names_may_be_unavailable() {
    let load = SrumDatabase::load_id_map().opened(-1305);
    assert_eq!(load.step(), LoadStep::Unavailable(-1305));
    assert_eq!(load.into_database().name_count(), 0);
}

#[test]
fn the_table_of_names_may_lack_columns() {
    let load = SrumDatabase::load_id_map().opened(0).listed(&vec![column("IdIndex", 1)]);
    assert_eq!(load.step(), LoadStep::CloseUnread);
    let load = load.closed();
    assert_eq!(load.step(), LoadStep::Done);
    assert_eq!(load.into_database().name_count(), 0);
}

#[test]
fn identifiers_become_names() {
    let db = SrumDatabase::new().with_id(&number(9), &blob(b"name"), &None);
    assert!(matches!(
        db.resolve_value("AppId", ColumnValue::Long(9)),
        ColumnValue::Text(t) if t == "name"
    ));
    assert!(matches!(
        db.resolve_value("UserId", ColumnValue::LongLong(0x1_0000_0009)),
        ColumnValue::Text(t) if t == "name"
    ));
    assert!(matches!(db.resolve_value("AppId", ColumnValue::Long(8)), ColumnValue::Long(8)));
    assert!(matches!(db.resolve_value("Energy", ColumnValue::Long(9)), ColumnValue::Long(9)));
    assert!(matches!(db.resolve_value("AppId", ColumnValue::Null), ColumnValue::Null));
}
