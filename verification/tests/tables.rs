use pac_windows::column::{buffer_size, ColumnInfo, ColumnValue, Retrieved};
use pac_windows::database::SrumDatabase;
use pac_windows::jet::{CursorStep, MOVE_FIRST, MOVE_NEXT, READ_ONLY};
use pac_windows::srum::{ENERGY_USAGE_LT_TABLE, ENERGY_USAGE_TABLE};
use pac_windows::tables::{read_record, ReadStep};
use pac_windows::utf16::to_wide;

fn cell(col_type: u32, data: &[u8]) -> Retrieved {
    let mut buf = vec![0u8; buffer_size(col_type)];
    buf[..data.len()].copy_from_slice(data);
    Retrieved { err: 0, actual: data.len() as u32, buf }
}

fn columns() -> Vec<ColumnInfo> {
    vec![
        ColumnInfo { name: "AppId".to_string(), id: 1, col_type: 4 },
        ColumnInfo { name: "Energy".to_string(), id: 2, col_type: 15 },
    ]
}

fn cells(app: u32, energy: i64) -> Vec<Retrieved> {
    vec![cell(4, &app.to_le_bytes()), cell(15, &energy.to_le_bytes())]
}

fn database() -> SrumDatabase {
    SrumDatabase::new().with_id(&cell(4, &[7, 0, 0, 0]), &cell(9, b"svc"), &None)
}

#[test]
fn a_record_has_a_value_for_each_column() {
    let row = read_record(&database(), &columns(), &cells(7, -3));
    assert_eq!(row.len(), 2);
    assert!(matches!(&row[0], ColumnValue::Text(t) if t == "svc"));
    assert!(matches!(row[1], ColumnValue::LongLong(-3)));
}

#[test]
fn a_table_is_read_to_its_end() {
    let db = database();
    let read = db.read_table("{T}");
    assert_eq!(read.step(), ReadStep::OpenTable(READ_ONLY));
    assert_eq!(read.wide_name(), to_wide("{T}"));
    let read = read.opened(0).unwrap();
    assert_eq!(read.step(), ReadStep::ListColumns);
    let read = read.listed(columns());
    assert_eq!(read.step(), ReadStep::Walk(CursorStep::Move(MOVE_FIRST)));
    assert_eq!(read.columns().len(), 2);
    let read = read.moved(0);
    assert_eq!(read.step(), ReadStep::Walk(CursorStep::Read));
    let read = read.row(&cells(7, 1));
    assert_eq!(read.step(), ReadStep::Walk(CursorStep::Move(MOVE_NEXT)));
    let read = read.moved(0).row(&cells(8, 2)).moved(-1603);
    assert_eq!(read.step(), ReadStep::Walk(CursorStep::Close));
    let read = read.closed();
    assert_eq!(read.step(), ReadStep::Done);
    let (names, rows) = read.finish();
    assert_eq!(names, vec!["AppId".to_string(), "Energy".to_string()]);
    assert_eq!(rows.len(), 2);
    assert!(matches!(&rows[0][0], ColumnValue::Text(t) if t == "svc"));
    assert!(matches!(rows[1][0], ColumnValue::Long(8)));
    assert!(matches!(rows[1][1], ColumnValue::LongLong(2)));
}

#[test]
fn an_empty_table_has_names_only() {
    let db = SrumDatabase::new();
    let read = db.read_table("{T}").opened(0).unwrap().listed(columns()).moved(-1603).closed();
    let (names, rows) = read.finish();
    assert_eq!(names.len(), 2);
    assert!(rows.is_empty());
}

#[test]
fn a_missing_table_is_an_error() {
    let db = SrumDatabase::new();
    let e = match db.read_table("{T}").opened(-1305) {
        Ok(_) => panic!("opened"),
        Err(e) => e,
    };
    assert_eq!(e.message(), "JetOpenTableW({T}) failed with JET error -1305");
}

#[test]
fn energy_tables_are_read_by_name() {
    let db = SrumDatabase::new();
    assert_eq!(db.read_energy_usage().wide_name(), to_wide(ENERGY_USAGE_TABLE));
    assert_eq!(db.read_energy_usage_lt().wide_name(), to_wide(ENERGY_USAGE_LT_TABLE));
}
