use pac_windows::column::Retrieved;
use pac_windows::database::SrumDatabase;
use pac_windows::jet::{CursorStep, ScanStep, MOVE_FIRST, MOVE_NEXT, READ_ONLY};
use pac_windows::listing::{
    is_known_table, known_first, known_table, object_list_message, ListStep, TableList, TableScan,
    KNOWN_TABLES, OBJECT_LIST_LEVEL,
};
use pac_windows::srum::{
    table_friendly_name, ENERGY_USAGE_LT_TABLE, ENERGY_USAGE_TABLE, ID_MAP_TABLE,
};
use pac_windows::utf16::to_wide;

fn owned(parts: &[&str]) -> Vec<String> {
    parts.iter().map(|p| p.to_string()).collect()
}

fn name_cell(s: &str) -> Retrieved {
    let mut buf = vec![0u8; 512];
    buf[..s.len()].copy_from_slice(s.as_bytes());
    Retrieved { err: 0, actual: s.len() as u32, buf }
}

fn listed(names: &[&str]) -> TableList {
    SrumDatabase::new().list_tables(owned(names))
}

fn counted(list: TableList, records: usize) -> TableList {
    let mut list = list.opened(0);
    for _ in 0..records {
        list = list.moved(0);
    }
    let list = list.moved(-1603);
    assert_eq!(list.step(), ListStep::Close);
    list.closed()
}

#[test]
fn known_tables_differ_and_have_names() {
    for i in 0..KNOWN_TABLES {
        assert_ne!(table_friendly_name(known_table(i)), known_table(i));
        for j in 0..i {
            assert_ne!(known_table(i), known_table(j));
        }
    }
    assert_eq!(known_table(0), ENERGY_USAGE_TABLE);
    assert_eq!(known_table(1), ENERGY_USAGE_LT_TABLE);
    assert_eq!(known_table(6), "{DD6636C4-8929-4683-974E-22C046A43763}");
    assert!(is_known_table(known_table(3)));
    assert!(!is_known_table(ID_MAP_TABLE));
}

#[test]
fn known_tables_come_first() {
    let names = owned(&["MSysObjects", known_table(4), ID_MAP_TABLE, known_table(0)]);
    let tables = known_first(names);
    assert_eq!(tables.len(), KNOWN_TABLES + 2);
    for i in 0..KNOWN_TABLES {
        assert_eq!(tables[i], known_table(i));
    }
    assert_eq!(tables[KNOWN_TABLES], "MSysObjects");
    assert_eq!(tables[KNOWN_TABLES + 1], ID_MAP_TABLE);
    assert_eq!(known_first(Vec::new()).len(), KNOWN_TABLES);
}

#[test]
fn table_names_are_scanned() {
    let scan = TableScan::new();
    assert_eq!(scan.step(), ScanStep::Query(OBJECT_LIST_LEVEL));
    let scan = scan.queried(0);
    assert_eq!(scan.step(), ScanStep::Walk(CursorStep::Move(MOVE_FIRST)));
    let scan = scan.moved(0);
    assert_eq!(scan.step(), ScanStep::Walk(CursorStep::Read));
    let scan = scan.row(&name_cell("MSysObjects"));
    assert_eq!(scan.step(), ScanStep::Walk(CursorStep::Move(MOVE_NEXT)));
    let unread = Retrieved { err: -1, actual: 0, buf: vec![0; 512] };
    let scan = scan.moved(0).row(&unread).moved(0).row(&name_cell("S\0r\0u\0")).moved(-1603);
    assert_eq!(scan.step(), ScanStep::Walk(CursorStep::Close));
    let scan = scan.closed();
    assert_eq!(scan.step(), ScanStep::Done);
    assert_eq!(scan.into_names(), owned(&["MSysObjects", "Sru"]));
}

#[test]
fn scanning_table_names_can_fail() {
    let scan = TableScan::new().queried(-1010);
    assert_eq!(scan.step(), ScanStep::Failed(-1010));
    assert_eq!(object_list_message(-1010), "JetGetObjectInfoW failed: -1010");
}

#[test]
fn tables_are_counted_in_order() {
    let list = listed(&["a", "b", "c"]);
    assert_eq!(list.step(), ListStep::OpenTable(0, READ_ONLY));
    assert_eq!(list.wide_name(), to_wide("a"));
    let list = counted(list, 3);
    assert_eq!(list.step(), ListStep::OpenTable(1, READ_ONLY));
    assert_eq!(list.wide_name(), to_wide("b"));
    let list = list.opened(-1305);
    assert_eq!(list.step(), ListStep::OpenTable(2, READ_ONLY));
    let list = counted(list, 0);
    assert_eq!(list.step(), ListStep::Done);
    assert_eq!(list.into_tables(), vec![("a".to_string(), 3), ("c".to_string(), 0)]);
}

#[test]
fn every_table_of_a_database_is_listed() {
    let names = known_first(owned(&[ID_MAP_TABLE, known_table(1)]));
    let mut list = SrumDatabase::new().list_tables(names.clone());
    for name in &names {
        let there = name == ID_MAP_TABLE || name == known_table(1);
        list = if there { counted(list, 5) } else { list.opened(-1305) };
    }
    assert_eq!(list.step(), ListStep::Done);
    let tables = list.into_tables();
    assert_eq!(tables, vec![(known_table(1).to_string(), 5), (ID_MAP_TABLE.to_string(), 5)]);
}

#[test]
fn counting_moves_to_the_first_then_to_the_next() {
    let list = listed(&["a"]).opened(0);
    assert_eq!(list.step(), ListStep::Move(MOVE_FIRST, 0));
    let list = list.moved(0);
    assert_eq!(list.step(), ListStep::Move(MOVE_NEXT, 1));
    let list = list.moved(1006);
    assert_eq!(list.step(), ListStep::Move(MOVE_NEXT, 2));
}

#[test]
fn without_tables_the_list_is_empty() {
    let list = listed(&[]);
    assert_eq!(list.step(), ListStep::Done);
    assert!(list.into_tables().is_empty());
}
