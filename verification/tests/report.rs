use pac_windows::emi::{EmiDevice, EmiMeasurement};
use pac_windows::listing::{known_table, KNOWN_TABLES};
use pac_windows::report::{
    csv_report_lines, device_list_lines, json_line, json_report_lines, reading_lines, row_count,
    snapshot_heading_lines, snapshot_line, snapshot_report_lines, table_guid, table_list_lines, table_report_lines,
    table_request, Cell, TableRequest,
};

fn owned(parts: &[&str]) -> Vec<String> {
    parts.iter().map(|p| p.to_string()).collect()
}

fn cell(text: &str) -> Cell {
    Cell { is_null: text == "NULL", text: text.to_string() }
}

fn rows() -> Vec<Vec<Cell>> {
    vec![
        vec![cell("svc"), cell("5")],
        vec![cell("NULL"), cell("6")],
        vec![cell("app"), cell("NULL")],
    ]
}

fn device(name: &str, revision: u16) -> EmiDevice {
    EmiDevice {
        path: "\\\\?\\acpi#1".to_string(),
        oem: "Microchip".to_string(),
        model: "PAC1954".to_string(),
        hw_revision: revision,
        channel_name: name.to_string(),
        is_pac: true,
    }
}

#[test]
fn device_list() {
    let lines = device_list_lines(&vec![device("CPU_+5V_BULK_DRAM", 2), device("+18.2VB", 10)]);
    assert_eq!(lines.len(), 6);
    assert_eq!(lines[0], format!("{:<35} {:<8} {:<10} {:<5} PATH", "CHANNEL", "OEM", "MODEL", "REV"));
    assert_eq!(lines[1], "-".repeat(100));
    assert_eq!(
        lines[2],
        format!(
            "{:<35} {:<8} {:<10} {:<5} {}",
            "CPU_+5V_BULK_DRAM", "Microchip", "PAC1954", 2, "\\\\?\\acpi#1"
        )
    );
    assert_eq!(
        lines[3],
        format!(
            "{:<35} {:<8} {:<10} {:<5} {}",
            "+18.2VB", "Microchip", "PAC1954", 10, "\\\\?\\acpi#1"
        )
    );
    assert_eq!(lines[4], "");
    assert_eq!(lines[5], "2 device(s) found.");
}

#[test]
fn empty_device_list() {
    assert_eq!(device_list_lines(&Vec::new()), owned(&["No EMI devices found."]));
}

#[test]
fn snapshot_in_json() {
    let m = EmiMeasurement { energy_pwh: 1500000000000, time_100ns: 42 };
    assert_eq!(
        json_line("DRAM", &m, "1.500000", 0, 2),
        "  {\"channel\": \"DRAM\", \"energy_pwh\": 1500000000000, \"energy_wh\": 1.500000, \"time_100ns\": 42},"
    );
    assert_eq!(
        json_line("DRAM", &m, "1.500000", 1, 2),
        "  {\"channel\": \"DRAM\", \"energy_pwh\": 1500000000000, \"energy_wh\": 1.500000, \"time_100ns\": 42}"
    );
}

#[test]
fn channel_names_are_escaped_in_json() {
    let m = EmiMeasurement { energy_pwh: 1, time_100ns: 2 };
    assert_eq!(
        json_line("a\"\\\n", &m, "0.000000", 0, 1),
        "  {\"channel\": \"a\\\"\\\\\\u000a\", \"energy_pwh\": 1, \"energy_wh\": 0.000000, \"time_100ns\": 2}"
    );
}

#[test]
fn a_json_report_is_one_array() {
    let devices = vec![device("A", 1), device("B", 1)];
    let measurements = vec![
        EmiMeasurement { energy_pwh: 1, time_100ns: 2 },
        EmiMeasurement { energy_pwh: 3, time_100ns: 4 },
    ];
    let energies = owned(&["0.1", "0.3"]);
    assert_eq!(
        json_report_lines(&devices, &measurements, &energies),
        vec![
            "[".to_string(),
            json_line("A", &measurements[0], "0.1", 0, 2),
            json_line("B", &measurements[1], "0.3", 1, 2),
            "]".to_string(),
        ]
    );
    assert_eq!(
        json_report_lines(&Vec::new(), &Vec::new(), &Vec::new()),
        owned(&["[", "]"])
    );
}

#[test]
fn a_snapshot_report_has_a_line_for_each_channel() {
    let devices = vec![device("A", 1), device("B", 1)];
    let measurements = vec![
        EmiMeasurement { energy_pwh: 1, time_100ns: 2 },
        EmiMeasurement { energy_pwh: 3, time_100ns: 4 },
    ];
    let lines = snapshot_report_lines(&devices, &measurements, &owned(&["0.1", "0.3"]));
    let mut expected = snapshot_heading_lines();
    expected.push(snapshot_line("A", &measurements[0], "0.1"));
    expected.push(snapshot_line("B", &measurements[1], "0.3"));
    assert_eq!(lines, expected);
    let empty = snapshot_report_lines(&Vec::new(), &Vec::new(), &Vec::new());
    assert_eq!(empty, snapshot_heading_lines());
}

#[test]
fn snapshot_table() {
    let head = snapshot_heading_lines();
    assert_eq!(
        head[0],
        format!(
            "{:<35} {:>18} {:>14} {:>20}",
            "CHANNEL", "ENERGY (pWh)", "ENERGY (Wh)", "TIME (100ns)"
        )
    );
    assert_eq!(head[1], "-".repeat(90));
    assert_eq!(head.len(), 2);
    let m = EmiMeasurement { energy_pwh: u64::MAX, time_100ns: 7 };
    let energy = m.energy_pwh as f64 / 1e12;
    assert_eq!(
        snapshot_line("DRAM", &m, &format!("{:.6}", energy)),
        format!("{:<35} {:>18} {:>14.6} {:>20}", "DRAM", m.energy_pwh, energy, 7)
    );
}

#[test]
fn requests_for_tables() {
    assert_eq!(table_guid("energy").unwrap(), "{FEE4E14F-02A9-4550-B5CE-5FA2DA202E37}");
    assert_eq!(table_guid("energy-lt").unwrap(), "{FEE4E14F-02A9-4550-B5CE-5FA2DA202E37}LT");
    assert_eq!(table_guid("estimator").unwrap(), "{DA73FB89-2BEA-4DDC-86B8-6E048C6DA477}");
    assert_eq!(table_guid("tagged").unwrap(), "{B6D82AF1-F780-4E17-8077-6CB9AD8A6FC4}");
    assert_eq!(table_guid("{raw}").unwrap(), "{raw}");
}

#[test]
fn short_requests_name_known_tables() {
    for request in ["energy", "energy-lt", "estimator", "tagged"] {
        let guid = table_guid(request).unwrap();
        assert!((0..KNOWN_TABLES).any(|i| known_table(i) == guid));
    }
}

#[test]
fn unknown_requests_are_refused() {
    for request in ["", "Energy", "list", "energy "] {
        assert_eq!(table_guid(request).unwrap_err().request, request);
    }
    assert_eq!(
        table_guid("power").unwrap_err().message(),
        "Unknown table 'power'. Use: energy, energy-lt, estimator, tagged, or a raw GUID"
    );
}

#[test]
fn a_request_is_for_the_list_or_for_a_table() {
    assert!(matches!(table_request("list"), Ok(TableRequest::List)));
    assert!(matches!(
        table_request("tagged"),
        Ok(TableRequest::Read(guid)) if guid == "{B6D82AF1-F780-4E17-8077-6CB9AD8A6FC4}"
    ));
    assert!(matches!(table_request("lists"), Err(e) if e.request == "lists"));
}

#[test]
fn list_of_tables() {
    let tables = vec![(known_table(0).to_string(), 12), ("{X}".to_string(), 0)];
    assert_eq!(
        table_list_lines(&tables),
        owned(&[
            "",
            "Available tables:",
            "  {FEE4E14F-02A9-4550-B5CE-5FA2DA202E37} (Energy Usage)",
            "  {X} ({X})",
        ])
    );
}

#[test]
fn the_table_that_is_read() {
    assert_eq!(
        reading_lines(known_table(2)),
        owned(&[
            "Reading table: {DA73FB89-2BEA-4DDC-86B8-6E048C6DA477} (Energy Estimator Provider)",
            "",
        ])
    );
}

#[test]
fn rows_up_to_the_limit() {
    assert_eq!(row_count(5, None), 5);
    assert_eq!(row_count(5, Some(2)), 2);
    assert_eq!(row_count(5, Some(20)), 5);
    assert_eq!(row_count(5, Some(0)), 0);
}

#[test]
fn csv_report() {
    let names = owned(&["AppId", "Energy"]);
    assert_eq!(
        csv_report_lines(&names, &rows(), None),
        owned(&["AppId,Energy", "svc,5", "NULL,6", "app,NULL", "Total: 3 rows"])
    );
    assert_eq!(
        csv_report_lines(&names, &rows(), Some(1)),
        owned(&["AppId,Energy", "svc,5", "Total: 3 rows"])
    );
    assert_eq!(csv_report_lines(&Vec::new(), &Vec::new(), None), owned(&["", "Total: 0 rows"]));
}

#[test]
fn table_report() {
    let names = owned(&["AppId", "Energy"]);
    let line = |name: &str, text: &str| format!("  {:<30} {}", name, text);
    assert_eq!(
        table_report_lines(&names, &rows(), Some(2)),
        vec![
            "3 rows total (showing 2)".to_string(),
            String::new(),
            "--- Row 1 ---".to_string(),
            line("AppId", "svc"),
            line("Energy", "5"),
            String::new(),
            "--- Row 2 ---".to_string(),
            line("Energy", "6"),
            String::new(),
            "Total: 3 rows".to_string(),
        ]
    );
}

#[test]
fn a_text_of_null_is_shown_and_a_null_is_not() {
    let names = owned(&["A", "B"]);
    let row = vec![
        Cell { is_null: false, text: "NULL".to_string() },
        Cell { is_null: true, text: "NULL".to_string() },
    ];
    let lines = table_report_lines(&names, &vec![row], None);
    assert_eq!(lines.iter().filter(|l| l.contains("NULL")).count(), 1);
    assert!(lines[3].starts_with("  A "));
}
