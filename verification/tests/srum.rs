use pac_windows::srum::{
    read_ese_page_size, table_friendly_name, ENERGY_USAGE_LT_TABLE, ENERGY_USAGE_TABLE, HEADER_LEN,
    ID_MAP_TABLE, PAGE_SIZE_OFFSET,
};

fn header(page_size: u32) -> Vec<u8> {
    let mut data = vec![0xEEu8; HEADER_LEN];
    data[PAGE_SIZE_OFFSET..].copy_from_slice(&page_size.to_le_bytes());
    data
}

#[test]
fn page_sizes_of_databases() {
    for size in [4096u32, 8192, 16384, 32768] {
        assert_eq!(read_ese_page_size(&header(size)).unwrap(), size as usize);
    }
}

#[test]
fn other_page_sizes_are_refused() {
    for size in [0u32, 1, 2048, 4095, 4097, 12288, 32767, 65536, u32::MAX] {
        let e = read_ese_page_size(&header(size)).unwrap_err();
        assert_eq!(e.page_size, size);
    }
}

#[test]
fn page_size_error_in_words() {
    let e = read_ese_page_size(&header(2048)).unwrap_err();
    assert_eq!(e.message(), "Unexpected ESE page size 2048 in database header");
}

#[test]
fn header_has_240_bytes() {
    assert_eq!(HEADER_LEN, 240);
    assert_eq!(PAGE_SIZE_OFFSET, 236);
}

#[test]
fn tables_have_friendly_names() {
    let names = [
        ("{FEE4E14F-02A9-4550-B5CE-5FA2DA202E37}", "Energy Usage"),
        ("{FEE4E14F-02A9-4550-B5CE-5FA2DA202E37}LT", "Energy Usage (Long Term)"),
        ("{DA73FB89-2BEA-4DDC-86B8-6E048C6DA477}", "Energy Estimator Provider"),
        ("{B6D82AF1-F780-4E17-8077-6CB9AD8A6FC4}", "Tagged Energy Provider"),
        ("{D10CA2FE-6FCF-4F6D-848E-B2E99266FA89}", "Application Resource Usage"),
        ("{973F5D5C-1D90-4944-BE8E-24B94231A174}", "Network Data Usage"),
        ("{DD6636C4-8929-4683-974E-22C046A43763}", "Network Connectivity Usage"),
    ];
    for (guid, name) in names {
        assert_eq!(table_friendly_name(guid), name);
    }
    assert_eq!(table_friendly_name("{0}"), "{0}");
    assert_eq!(table_friendly_name(""), "");
    assert_eq!(table_friendly_name(ID_MAP_TABLE), "SruDbIdMapTable");
}

#[test]
fn long_term_table_has_a_suffix() {
    assert_eq!(format!("{}LT", ENERGY_USAGE_TABLE), ENERGY_USAGE_LT_TABLE);
}
