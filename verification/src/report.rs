//! The lines of the reports: device lists, snapshots, and tables of the history database.

use vstd::prelude::*;
use vstd::string::*;

use crate::emi::{device_views, EmiDevice, EmiDeviceView, EmiMeasurement};
use crate::json::{escaped, escaped_reads_back, push_escaped, read_string};
use crate::listing::{count_views, known_tables};
use crate::srum::{
    friendly_name, table_friendly_name, ENERGY_ESTIMATOR_TABLE, ENERGY_USAGE_LT_TABLE,
    ENERGY_USAGE_TABLE, TAGGED_ENERGY_TABLE,
};
use crate::text::{
    before_last_field, begins_with, begins_with_char, blanks_at_end, decimal,
    decimal_reads_back, decimal_text, fill, gap, is_numeral, join, join_texts, join_then_split,
    last_field, left_aligned, left_aligned_gap, numeral_value, numeral_without_space, push_decimal,
    push_left_aligned, push_repeated, push_right_aligned, repeated, right_aligned,
    right_aligned_reads_back, same_text, split, texts, without_end_blanks,
};

verus! {

/// The line of a device in a device list.
pub open spec fn device_row(d: EmiDeviceView) -> Seq<char> {
    left_aligned(d.channel_name, 35) + " "@ + left_aligned(d.oem, 8) + " "@ + left_aligned(
        d.model,
        10,
    ) + " "@ + left_aligned(decimal(d.hw_revision as nat), 5) + " "@ + d.path
}

/// The head line of a device list.
pub open spec fn device_heading() -> Seq<char> {
    left_aligned("CHANNEL"@, 35) + " "@ + left_aligned("OEM"@, 8) + " "@ + left_aligned(
        "MODEL"@,
        10,
    ) + " "@ + left_aligned("REV"@, 5) + " PATH"@
}

/// The lines of a device list.
pub open spec fn device_list(devices: Seq<EmiDeviceView>) -> Seq<Seq<char>> {
    if devices.len() == 0 {
        seq!["No EMI devices found."@]
    } else {
        seq![device_heading(), repeated('-', 100)] + devices.map_values(
            |d: EmiDeviceView| device_row(d),
        ) + seq![Seq::empty(), decimal(devices.len()) + " device(s) found."@]
    }
}

fn device_line(d: &EmiDevice) -> (res: String)
    ensures
        res@ == device_row(d@),
{
    let mut out = String::new();
    push_left_aligned(&mut out, d.channel_name.as_str(), 35);
    out.append(" ");
    push_left_aligned(&mut out, d.oem.as_str(), 8);
    out.append(" ");
    push_left_aligned(&mut out, d.model.as_str(), 10);
    out.append(" ");
    let revision = decimal_text(d.hw_revision as u128);
    push_left_aligned(&mut out, revision.as_str(), 5);
    out.append(" ");
    out.append(d.path.as_str());
    out
}

/// Writes the lines of a device list.
pub fn device_list_lines(devices: &Vec<EmiDevice>) -> (res: Vec<String>)
    ensures
        texts(res@) == device_list(device_views(devices@)),
{
    let mut lines: Vec<String> = Vec::new();
    if devices.len() == 0 {
        lines.push("No EMI devices found.".to_owned());
        assert(texts(lines@) =~= device_list(device_views(devices@)));
        return lines;
    }
    let ghost rows = device_views(devices@).map_values(|d: EmiDeviceView| device_row(d));
    let ghost top = seq![device_heading(), repeated('-', 100)];
    let mut heading = String::new();
    push_left_aligned(&mut heading, "CHANNEL", 35);
    heading.append(" ");
    push_left_aligned(&mut heading, "OEM", 8);
    heading.append(" ");
    push_left_aligned(&mut heading, "MODEL", 10);
    heading.append(" ");
    push_left_aligned(&mut heading, "REV", 5);
    heading.append(" PATH");
    assert(heading@ =~= device_heading());
    lines.push(heading);
    let mut rule = String::new();
    push_repeated(&mut rule, '-', 100);
    lines.push(rule);
    assert(texts(lines@) =~= top + rows.take(0));
    let mut i: usize = 0;
    while i < devices.len()
        invariant
            0 <= i <= devices@.len(),
            rows == device_views(devices@).map_values(|d: EmiDeviceView| device_row(d)),
            texts(lines@) == top + rows.take(i as int),
        decreases devices@.len() - i,
    {
        let ghost before = lines@;
        lines.push(device_line(&devices[i]));
        proof {
            assert(texts(lines@) =~= texts(before).push(lines@.last()@));
            assert(rows.take(i + 1) =~= rows.take(i as int).push(rows[i as int]));
            assert(texts(lines@) =~= top + rows.take(i + 1));
        }
        i = i + 1;
    }
    assert(rows.take(i as int) =~= rows);
    let ghost before = lines@;
    lines.push(String::new());
    let mut count = String::new();
    push_decimal(&mut count, devices.len() as u128);
    count.append(" device(s) found.");
    lines.push(count);
    assert(texts(lines@) =~= texts(before) + seq![
        Seq::empty(),
        decimal(devices@.len()) + " device(s) found."@,
    ]);
    assert(texts(lines@) =~= device_list(device_views(devices@)));
    lines
}

/// The line of a channel in a snapshot in JSON: an object, with a comma behind it unless it is
/// the last one.
pub open spec fn json_row(
    channel_name: Seq<char>,
    m: EmiMeasurement,
    energy_wh: Seq<char>,
    is_last: bool,
) -> Seq<char> {
    "  {\"channel\": \""@ + escaped(channel_name) + "\", \"energy_pwh\": "@ + decimal(
        m.energy_pwh as nat,
    ) + ", \"energy_wh\": "@ + energy_wh + ", \"time_100ns\": "@ + decimal(m.time_100ns as nat)
        + "}"@ + (if is_last {
        Seq::empty()
    } else {
        ","@
    })
}

/// Writes the line of the channel with this index, out of `total`, in JSON. The energy in
/// watt-hours is given as text.
pub fn json_line(
    channel_name: &str,
    m: &EmiMeasurement,
    energy_wh: &str,
    index: usize,
    total: usize,
) -> (res: String)
    requires
        index < total,
    ensures
        res@ == json_row(channel_name@, *m, energy_wh@, index == total - 1),
{
    let mut out: String = "  {\"channel\": \"".to_owned();
    push_escaped(&mut out, channel_name);
    out.append("\", \"energy_pwh\": ");
    push_decimal(&mut out, m.energy_pwh as u128);
    out.append(", \"energy_wh\": ");
    out.append(energy_wh);
    out.append(", \"time_100ns\": ");
    push_decimal(&mut out, m.time_100ns as u128);
    out.append("}");
    if index < total - 1 {
        out.append(",");
    }
    out
}

/// The name of the channel is read back from its line in JSON, whichever characters it holds.
pub proof fn json_channel_reads_back(
    channel_name: Seq<char>,
    m: EmiMeasurement,
    energy_wh: Seq<char>,
    is_last: bool,
)
    ensures
        json_row(channel_name, m, energy_wh, is_last).take(15) == "  {\"channel\": \""@,
        read_string(json_row(channel_name, m, energy_wh, is_last).skip(15)) matches Some(read)
            && read.0 == channel_name,
{
    let row = json_row(channel_name, m, energy_wh, is_last);
    let head = "  {\"channel\": \""@;
    let next = "\", \"energy_pwh\": "@;
    reveal_strlit("  {\"channel\": \"");
    reveal_strlit("\", \"energy_pwh\": ");
    let after = decimal(m.energy_pwh as nat) + ", \"energy_wh\": "@ + energy_wh
        + ", \"time_100ns\": "@ + decimal(m.time_100ns as nat) + "}"@ + (if is_last {
        Seq::empty()
    } else {
        ","@
    });
    assert(row =~= head + (escaped(channel_name) + (next + after)));
    assert(row.take(15) =~= head);
    let rest = next.skip(1) + after;
    assert(next + after =~= seq!['"'] + rest);
    assert(row.skip(15) =~= escaped(channel_name) + seq!['"'] + rest);
    escaped_reads_back(channel_name, rest);
}

/// A snapshot in JSON: an array with an object for each channel, in their order.
pub open spec fn json_report(
    devices: Seq<EmiDeviceView>,
    measurements: Seq<EmiMeasurement>,
    energies_wh: Seq<Seq<char>>,
) -> Seq<Seq<char>> {
    seq!["["@] + Seq::new(
        devices.len(),
        |i: int|
            json_row(
                devices[i].channel_name,
                measurements[i],
                energies_wh[i],
                i == devices.len() - 1,
            ),
    ) + seq!["]"@]
}

/// Writes a snapshot in JSON: a measurement for each device, and its energy in watt-hours as
/// text.
pub fn json_report_lines(
    devices: &Vec<EmiDevice>,
    measurements: &Vec<EmiMeasurement>,
    energies_wh: &Vec<String>,
) -> (res: Vec<String>)
    requires
        measurements@.len() == devices@.len(),
        energies_wh@.len() == devices@.len(),
    ensures
        texts(res@) == json_report(device_views(devices@), measurements@, texts(energies_wh@)),
{
    let total: usize = devices.len();
    let ghost views = device_views(devices@);
    let ghost energies = texts(energies_wh@);
    let ghost rows = Seq::new(
        views.len(),
        |i: int|
            json_row(views[i].channel_name, measurements@[i], energies[i], i == views.len() - 1),
    );
    let mut lines: Vec<String> = Vec::new();
    lines.push("[".to_owned());
    assert(texts(lines@) =~= seq!["["@] + rows.take(0));
    let mut i: usize = 0;
    while i < total
        invariant
            0 <= i <= total == devices@.len() == measurements@.len() == energies_wh@.len(),
            views == device_views(devices@),
            energies == texts(energies_wh@),
            rows == Seq::new(
                views.len(),
                |i: int|
                    json_row(
                        views[i].channel_name,
                        measurements@[i],
                        energies[i],
                        i == views.len() - 1,
                    ),
            ),
            texts(lines@) == seq!["["@] + rows.take(i as int),
        decreases total - i,
    {
        let ghost before = lines@;
        lines.push(
            json_line(
                devices[i].channel_name.as_str(),
                &measurements[i],
                energies_wh[i].as_str(),
                i,
                total,
            ),
        );
        proof {
            assert(views[i as int].channel_name == devices@[i as int].channel_name@);
            assert(energies[i as int] == energies_wh@[i as int]@);
            assert(texts(lines@) =~= texts(before).push(lines@.last()@));
            assert(rows.take(i + 1) =~= rows.take(i as int).push(rows[i as int]));
            assert(texts(lines@) =~= seq!["["@] + rows.take(i + 1));
        }
        i = i + 1;
    }
    assert(rows.take(i as int) =~= rows);
    let ghost before = lines@;
    lines.push("]".to_owned());
    assert(texts(lines@) =~= texts(before).push("]"@));
    assert(texts(lines@) =~= json_report(views, measurements@, energies));
    lines
}

/// The head line of a snapshot table.
pub open spec fn snapshot_heading() -> Seq<char> {
    left_aligned("CHANNEL"@, 35) + " "@ + right_aligned("ENERGY (pWh)"@, 18) + " "@ + right_aligned(
        "ENERGY (Wh)"@,
        14,
    ) + " "@ + right_aligned("TIME (100ns)"@, 20)
}

/// The line of a channel in a snapshot table.
pub open spec fn snapshot_row(
    channel_name: Seq<char>,
    m: EmiMeasurement,
    energy_wh: Seq<char>,
) -> Seq<char> {
    left_aligned(channel_name, 35) + " "@ + right_aligned(decimal(m.energy_pwh as nat), 18) + " "@
        + right_aligned(energy_wh, 14) + " "@ + right_aligned(decimal(m.time_100ns as nat), 20)
}

/// Writes the head of a snapshot table: the head line and a rule.
pub fn snapshot_heading_lines() -> (res: Vec<String>)
    ensures
        texts(res@) == seq![snapshot_heading(), repeated('-', 90)],
{
    let mut heading = String::new();
    push_left_aligned(&mut heading, "CHANNEL", 35);
    heading.append(" ");
    push_right_aligned(&mut heading, "ENERGY (pWh)", 18);
    heading.append(" ");
    push_right_aligned(&mut heading, "ENERGY (Wh)", 14);
    heading.append(" ");
    push_right_aligned(&mut heading, "TIME (100ns)", 20);
    assert(heading@ =~= snapshot_heading());
    let mut rule = String::new();
    push_repeated(&mut rule, '-', 90);
    let mut lines: Vec<String> = Vec::new();
    lines.push(heading);
    lines.push(rule);
    assert(texts(lines@) =~= seq![snapshot_heading(), repeated('-', 90)]);
    lines
}

/// Writes the line of a channel in a snapshot table. The energy in watt-hours is given as
/// text.
pub fn snapshot_line(channel_name: &str, m: &EmiMeasurement, energy_wh: &str) -> (res: String)
    ensures
        res@ == snapshot_row(channel_name@, *m, energy_wh@),
        is_numeral(last_field(res@)),
        numeral_value(last_field(res@)) == m.time_100ns,
        energy_wh@.len() > 0 && !energy_wh@.contains(' ') ==> {
            let without_time = before_last_field(res@);
            let without_wh = before_last_field(without_time);
            &&& last_field(without_time) == energy_wh@
            &&& is_numeral(last_field(without_wh))
            &&& numeral_value(last_field(without_wh)) == m.energy_pwh
            &&& before_last_field(without_wh) == without_end_blanks(channel_name@)
        },
{
    proof {
        snapshot_reads_back(channel_name@, *m, energy_wh@);
    }
    let mut out = String::new();
    push_left_aligned(&mut out, channel_name, 35);
    out.append(" ");
    let energy = decimal_text(m.energy_pwh as u128);
    push_right_aligned(&mut out, energy.as_str(), 18);
    out.append(" ");
    push_right_aligned(&mut out, energy_wh, 14);
    out.append(" ");
    let time = decimal_text(m.time_100ns as u128);
    push_right_aligned(&mut out, time.as_str(), 20);
    out
}

/// A snapshot as a table: the head, then a line for each channel, in their order.
pub open spec fn snapshot_report(
    devices: Seq<EmiDeviceView>,
    measurements: Seq<EmiMeasurement>,
    energies_wh: Seq<Seq<char>>,
) -> Seq<Seq<char>> {
    seq![snapshot_heading(), repeated('-', 90)] + Seq::new(
        devices.len(),
        |i: int| snapshot_row(devices[i].channel_name, measurements[i], energies_wh[i]),
    )
}

/// Writes a snapshot as a table: a measurement for each device, and its energy in watt-hours as
/// text.
pub fn snapshot_report_lines(
    devices: &Vec<EmiDevice>,
    measurements: &Vec<EmiMeasurement>,
    energies_wh: &Vec<String>,
) -> (res: Vec<String>)
    requires
        measurements@.len() == devices@.len(),
        energies_wh@.len() == devices@.len(),
    ensures
        texts(res@) == snapshot_report(device_views(devices@), measurements@, texts(energies_wh@)),
{
    let ghost views = device_views(devices@);
    let ghost energies = texts(energies_wh@);
    let ghost top = seq![snapshot_heading(), repeated('-', 90)];
    let ghost rows = Seq::new(
        views.len(),
        |i: int| snapshot_row(views[i].channel_name, measurements@[i], energies[i]),
    );
    let mut lines = snapshot_heading_lines();
    assert(texts(lines@) =~= top + rows.take(0));
    let mut i: usize = 0;
    while i < devices.len()
        invariant
            0 <= i <= devices@.len() == measurements@.len() == energies_wh@.len(),
            views == device_views(devices@),
            energies == texts(energies_wh@),
            rows == Seq::new(
                views.len(),
                |i: int| snapshot_row(views[i].channel_name, measurements@[i], energies[i]),
            ),
            texts(lines@) == top + rows.take(i as int),
        decreases devices@.len() - i,
    {
        let ghost before = lines@;
        lines.push(
            snapshot_line(
                devices[i].channel_name.as_str(),
                &measurements[i],
                energies_wh[i].as_str(),
            ),
        );
        proof {
            assert(views[i as int].channel_name == devices@[i as int].channel_name@);
            assert(energies[i as int] == energies_wh@[i as int]@);
            assert(texts(lines@) =~= texts(before).push(lines@.last()@));
            assert(rows.take(i + 1) =~= rows.take(i as int).push(rows[i as int]));
            assert(texts(lines@) =~= top + rows.take(i + 1));
        }
        i = i + 1;
    }
    assert(rows.take(i as int) =~= rows);
    lines
}

/// The table that a request names: one of the short names, or a table by its own name, which
/// starts with a brace.
pub open spec fn requested_table(request: Seq<char>) -> Option<Seq<char>> {
    if request == "energy"@ {
        Some(ENERGY_USAGE_TABLE@)
    } else if request == "energy-lt"@ {
        Some(ENERGY_USAGE_LT_TABLE@)
    } else if request == "estimator"@ {
        Some(ENERGY_ESTIMATOR_TABLE@)
    } else if request == "tagged"@ {
        Some(TAGGED_ENERGY_TABLE@)
    } else if begins_with(request, '{') {
        Some(request)
    } else {
        None
    }
}

/// A request for a table that there is not.
#[derive(Debug)]
pub struct UnknownTable {
    pub request: String,
}

impl UnknownTable {
    /// The error in words.
    pub fn message(&self) -> (res: String)
        ensures
            res@ == "Unknown table '"@ + self.request@
                + "'. Use: energy, energy-lt, estimator, tagged, or a raw GUID"@,
    {
        let mut out: String = "Unknown table '".to_owned();
        out.append(self.request.as_str());
        out.append("'. Use: energy, energy-lt, estimator, tagged, or a raw GUID");
        out
    }
}

/// Finds the table that a request names.
pub fn table_guid(request: &str) -> (res: Result<String, UnknownTable>)
    ensures
        match res {
            Ok(guid) => requested_table(request@) == Some(guid@),
            Err(e) => requested_table(request@) is None && e.request@ == request@,
        },
{
    if same_text(request, "energy") {
        Ok(ENERGY_USAGE_TABLE.to_owned())
    } else if same_text(request, "energy-lt") {
        Ok(ENERGY_USAGE_LT_TABLE.to_owned())
    } else if same_text(request, "estimator") {
        Ok(ENERGY_ESTIMATOR_TABLE.to_owned())
    } else if same_text(request, "tagged") {
        Ok(TAGGED_ENERGY_TABLE.to_owned())
    } else if begins_with_char(request, '{') {
        Ok(request.to_owned())
    } else {
        Err(UnknownTable { request: request.to_owned() })
    }
}

/// What is to be done with the tables of a database.
#[derive(Debug)]
pub enum TableRequest {
    /// List them.
    List,
    /// Read the one with this name.
    Read(String),
}

/// Takes a request apart: `list` asks for the list of tables, anything else for a table.
pub fn table_request(request: &str) -> (res: Result<TableRequest, UnknownTable>)
    ensures
        match res {
            Ok(TableRequest::List) => request@ == "list"@,
            Ok(TableRequest::Read(guid)) => request@ != "list"@ && requested_table(request@)
                == Some(guid@),
            Err(e) => request@ != "list"@ && requested_table(request@) is None && e.request@
                == request@,
        },
{
    if same_text(request, "list") {
        return Ok(TableRequest::List);
    }
    match table_guid(request) {
        Ok(guid) => Ok(TableRequest::Read(guid)),
        Err(e) => Err(e),
    }
}

/// Every request by a short name is for one of the known tables.
pub proof fn short_requests_are_known(request: Seq<char>)
    requires
        requested_table(request) is Some,
        !begins_with(request, '{'),
    ensures
        known_tables().contains(requested_table(request)->0),
{
    let known = known_tables();
    assert(known[0] == ENERGY_USAGE_TABLE@);
    assert(known[1] == ENERGY_USAGE_LT_TABLE@);
    assert(known[2] == ENERGY_ESTIMATOR_TABLE@);
    assert(known[3] == TAGGED_ENERGY_TABLE@);
}

/// The lines that list tables, each with its friendly name.
pub open spec fn table_list(tables: Seq<(Seq<char>, usize)>) -> Seq<Seq<char>> {
    seq![Seq::empty(), "Available tables:"@] + tables.map_values(
        |t: (Seq<char>, usize)| "  "@ + t.0 + " ("@ + friendly_name(t.0) + ")"@,
    )
}

/// Writes the lines that list tables.
pub fn table_list_lines(tables: &Vec<(String, usize)>) -> (res: Vec<String>)
    ensures
        texts(res@) == table_list(count_views(tables@)),
{
    let ghost rows = count_views(tables@).map_values(
        |t: (Seq<char>, usize)| "  "@ + t.0 + " ("@ + friendly_name(t.0) + ")"@,
    );
    let ghost top = seq![Seq::<char>::empty(), "Available tables:"@];
    let mut lines: Vec<String> = Vec::new();
    lines.push(String::new());
    lines.push("Available tables:".to_owned());
    assert(texts(lines@) =~= top + rows.take(0));
    let mut i: usize = 0;
    while i < tables.len()
        invariant
            0 <= i <= tables@.len(),
            rows == count_views(tables@).map_values(
                |t: (Seq<char>, usize)| "  "@ + t.0 + " ("@ + friendly_name(t.0) + ")"@,
            ),
            texts(lines@) == top + rows.take(i as int),
        decreases tables@.len() - i,
    {
        let ghost before = lines@;
        let name: &str = tables[i].0.as_str();
        let mut line: String = "  ".to_owned();
        line.append(name);
        line.append(" (");
        line.append(table_friendly_name(name));
        line.append(")");
        lines.push(line);
        proof {
            assert(texts(lines@) =~= texts(before).push(lines@.last()@));
            assert(lines@.last()@ =~= rows[i as int]);
            assert(rows.take(i + 1) =~= rows.take(i as int).push(rows[i as int]));
            assert(texts(lines@) =~= top + rows.take(i + 1));
        }
        i = i + 1;
    }
    assert(rows.take(i as int) =~= rows);
    lines
}

/// Writes the line that says which table is read, and an empty line.
pub fn reading_lines(table_guid: &str) -> (res: Vec<String>)
    ensures
        texts(res@) == seq![
            "Reading table: "@ + table_guid@ + " ("@ + friendly_name(table_guid@) + ")"@,
            Seq::empty(),
        ],
{
    let mut line: String = "Reading table: ".to_owned();
    line.append(table_guid);
    line.append(" (");
    line.append(table_friendly_name(table_guid));
    line.append(")");
    let mut lines: Vec<String> = Vec::new();
    lines.push(line);
    lines.push(String::new());
    assert(texts(lines@) =~= seq![
        "Reading table: "@ + table_guid@ + " ("@ + friendly_name(table_guid@) + ")"@,
        Seq::empty(),
    ]);
    lines
}

/// A cell in a report.
#[derive(Debug)]
pub struct Cell {
    /// Whether the cell holds nothing.
    pub is_null: bool,
    /// The text of the cell.
    pub text: String,
}

/// What a [`Cell`] stands for.
#[verifier::ext_equal]
pub struct CellView {
    pub is_null: bool,
    pub text: Seq<char>,
}

impl View for Cell {
    type V = CellView;

    open spec fn view(&self) -> CellView {
        CellView { is_null: self.is_null, text: self.text@ }
    }
}

/// The views of a row of cells.
pub open spec fn cell_views(row: Seq<Cell>) -> Seq<CellView> {
    row.map_values(|c: Cell| c@)
}

/// The views of rows of cells.
pub open spec fn cell_row_views(rows: Seq<Vec<Cell>>) -> Seq<Seq<CellView>> {
    rows.map_values(|row: Vec<Cell>| cell_views(row@))
}

/// How many of `total` rows are shown.
pub open spec fn shown_rows(total: nat, limit: Option<usize>) -> nat {
    match limit {
        Some(n) => if n < total {
            n as nat
        } else {
            total
        },
        None => total,
    }
}

/// Tells how many of `total` rows are shown.
pub fn row_count(total: usize, limit: Option<usize>) -> (res: usize)
    ensures
        res == shown_rows(total as nat, limit),
        res <= total,
{
    match limit {
        Some(n) => if n < total {
            n
        } else {
            total
        },
        None => total,
    }
}

/// A row as comma-separated text.
pub open spec fn csv_row(row: Seq<CellView>) -> Seq<char> {
    join(row.map_values(|c: CellView| c.text), ","@)
}

/// The last line of a table report.
pub open spec fn total_row(total: nat) -> Seq<char> {
    "Total: "@ + decimal(total) + " rows"@
}

/// A table report as comma-separated text: the column names, the rows up to the limit, and the
/// number of all rows.
pub open spec fn csv_report(
    names: Seq<Seq<char>>,
    rows: Seq<Seq<CellView>>,
    limit: Option<usize>,
) -> Seq<Seq<char>> {
    seq![join(names, ","@)] + Seq::new(
        shown_rows(rows.len(), limit),
        |i: int| csv_row(rows[i]),
    ) + seq![total_row(rows.len())]
}

/// A comma-separated row has as many fields as there are columns, and they are its cells, if
/// no cell holds a comma.
pub proof fn csv_row_fields(row: Seq<CellView>)
    requires
        row.len() >= 1,
        forall|i: int| 0 <= i < row.len() ==> !(#[trigger] row[i]).text.contains(','),
    ensures
        split(csv_row(row), ',') == row.map_values(|c: CellView| c.text),
{
    let fields = row.map_values(|c: CellView| c.text);
    reveal_strlit(",");
    assert(","@ =~= seq![',']);
    assert forall|i: int| 0 <= i < fields.len() implies !(#[trigger] fields[i]).contains(',') by {
        assert(fields[i] == row[i].text);
    }
    join_then_split(fields, ',');
}

fn csv_line(row: &Vec<Cell>) -> (res: String)
    ensures
        res@ == csv_row(cell_views(row@)),
{
    let ghost all = cell_views(row@).map_values(|c: CellView| c.text);
    let mut fields: Vec<String> = Vec::new();
    let mut i: usize = 0;
    while i < row.len()
        invariant
            0 <= i <= row@.len(),
            all == cell_views(row@).map_values(|c: CellView| c.text),
            texts(fields@) == all.take(i as int),
        decreases row@.len() - i,
    {
        let ghost before = fields@;
        fields.push(row[i].text.clone());
        proof {
            assert(texts(fields@) =~= texts(before).push(fields@.last()@));
            assert(all.take(i + 1) =~= all.take(i as int).push(all[i as int]));
        }
        i = i + 1;
    }
    assert(all.take(i as int) =~= all);
    join_texts(&fields, ",")
}

fn total_line(total: usize) -> (res: String)
    ensures
        res@ == total_row(total as nat),
{
    let mut out: String = "Total: ".to_owned();
    push_decimal(&mut out, total as u128);
    out.append(" rows");
    out
}

/// Writes a table report as comma-separated text.
pub fn csv_report_lines(
    names: &Vec<String>,
    rows: &Vec<Vec<Cell>>,
    limit: Option<usize>,
) -> (res: Vec<String>)
    ensures
        texts(res@) == csv_report(texts(names@), cell_row_views(rows@), limit),
{
    let shown: usize = row_count(rows.len(), limit);
    let ghost views = cell_row_views(rows@);
    let ghost all = Seq::new(shown as nat, |i: int| csv_row(views[i]));
    let ghost top = seq![join(texts(names@), ","@)];
    let mut lines: Vec<String> = Vec::new();
    lines.push(join_texts(names, ","));
    assert(texts(lines@) =~= top + all.take(0));
    let mut i: usize = 0;
    while i < shown
        invariant
            0 <= i <= shown <= rows@.len(),
            views == cell_row_views(rows@),
            all == Seq::new(shown as nat, |i: int| csv_row(views[i])),
            texts(lines@) == top + all.take(i as int),
        decreases shown - i,
    {
        let ghost before = lines@;
        lines.push(csv_line(&rows[i]));
        proof {
            assert(texts(lines@) =~= texts(before).push(lines@.last()@));
            assert(all.take(i + 1) =~= all.take(i as int).push(all[i as int]));
            assert(texts(lines@) =~= top + all.take(i + 1));
        }
        i = i + 1;
    }
    assert(all.take(i as int) =~= all);
    let ghost before = lines@;
    lines.push(total_line(rows.len()));
    assert(texts(lines@) =~= texts(before).push(total_row(rows@.len())));
    assert(texts(lines@) =~= csv_report(texts(names@), views, limit));
    lines
}

/// The line of a cell in a table report.
pub open spec fn cell_row(name: Seq<char>, text: Seq<char>) -> Seq<char> {
    "  "@ + left_aligned(name, 30) + " "@ + text
}

/// The lines of the first `n` cells of a row; cells that hold nothing are left out.
pub open spec fn cell_block(names: Seq<Seq<char>>, row: Seq<CellView>, n: nat) -> Seq<Seq<char>>
    decreases n,
{
    if n == 0 {
        Seq::empty()
    } else {
        let before = cell_block(names, row, (n - 1) as nat);
        if row[n - 1].is_null {
            before
        } else {
            before.push(cell_row(names[n - 1], row[n - 1].text))
        }
    }
}

/// The lines of a row: its number, its cells, and an empty line.
pub open spec fn row_block(names: Seq<Seq<char>>, row: Seq<CellView>, number: nat) -> Seq<
    Seq<char>,
> {
    seq!["--- Row "@ + decimal(number) + " ---"@] + cell_block(names, row, row.len()) + seq![
        Seq::empty(),
    ]
}

/// The lines of the first `n` rows.
pub open spec fn row_blocks(
    names: Seq<Seq<char>>,
    rows: Seq<Seq<CellView>>,
    n: nat,
) -> Seq<Seq<char>>
    decreases n,
{
    if n == 0 {
        Seq::empty()
    } else {
        row_blocks(names, rows, (n - 1) as nat) + row_block(names, rows[n - 1], n)
    }
}

/// A table report: how many rows there are, the rows up to the limit, and the number of all
/// rows.
pub open spec fn table_report(
    names: Seq<Seq<char>>,
    rows: Seq<Seq<CellView>>,
    limit: Option<usize>,
) -> Seq<Seq<char>> {
    let shown = shown_rows(rows.len(), limit);
    seq![
        decimal(rows.len()) + " rows total (showing "@ + decimal(shown) + ")"@,
        Seq::empty(),
    ] + row_blocks(names, rows, shown) + seq![total_row(rows.len())]
}

fn push_row_lines(lines: &mut Vec<String>, names: &Vec<String>, row: &Vec<Cell>, number: usize)
    requires
        row@.len() <= names@.len(),
    ensures
        texts(final(lines)@) == texts(old(lines)@) + row_block(
            texts(names@),
            cell_views(row@),
            number as nat,
        ),
{
    let ghost start = texts(lines@);
    let ghost cells = cell_views(row@);
    let mut heading: String = "--- Row ".to_owned();
    push_decimal(&mut heading, number as u128);
    heading.append(" ---");
    let ghost top = start.push(heading@);
    lines.push(heading);
    assert(texts(lines@) =~= top + cell_block(texts(names@), cells, 0));
    let mut i: usize = 0;
    while i < row.len()
        invariant
            0 <= i <= row@.len() <= names@.len(),
            cells == cell_views(row@),
            texts(lines@) == top + cell_block(texts(names@), cells, i as nat),
        decreases row@.len() - i,
    {
        let ghost before = lines@;
        assert(cells[i as int] == row@[i as int]@);
        if !row[i].is_null {
            let mut line: String = "  ".to_owned();
            push_left_aligned(&mut line, names[i].as_str(), 30);
            line.append(" ");
            line.append(row[i].text.as_str());
            lines.push(line);
            assert(texts(lines@) =~= texts(before).push(lines@.last()@));
            assert(lines@.last()@ =~= cell_row(texts(names@)[i as int], cells[i as int].text));
            assert(texts(lines@) =~= top + cell_block(texts(names@), cells, (i + 1) as nat));
        }
        i = i + 1;
    }
    let ghost before = lines@;
    lines.push(String::new());
    assert(texts(lines@) =~= texts(before).push(Seq::empty()));
    assert(texts(lines@) =~= start + row_block(texts(names@), cells, number as nat));
}

/// Writes a table report.
pub fn table_report_lines(
    names: &Vec<String>,
    rows: &Vec<Vec<Cell>>,
    limit: Option<usize>,
) -> (res: Vec<String>)
    requires
        forall|i: int| 0 <= i < rows@.len() ==> (#[trigger] rows@[i])@.len() <= names@.len(),
    ensures
        texts(res@) == table_report(texts(names@), cell_row_views(rows@), limit),
{
    let shown: usize = row_count(rows.len(), limit);
    let ghost views = cell_row_views(rows@);
    let mut heading = String::new();
    push_decimal(&mut heading, rows.len() as u128);
    heading.append(" rows total (showing ");
    push_decimal(&mut heading, shown as u128);
    heading.append(")");
    let ghost top = seq![heading@, Seq::<char>::empty()];
    let mut lines: Vec<String> = Vec::new();
    lines.push(heading);
    lines.push(String::new());
    assert(texts(lines@) =~= top + row_blocks(texts(names@), views, 0));
    let mut i: usize = 0;
    while i < shown
        invariant
            0 <= i <= shown <= rows@.len(),
            views == cell_row_views(rows@),
            forall|i: int| 0 <= i < rows@.len() ==> (#[trigger] rows@[i])@.len() <= names@.len(),
            texts(lines@) == top + row_blocks(texts(names@), views, i as nat),
        decreases shown - i,
    {
        assert(views[i as int] == cell_views(rows@[i as int]@));
        push_row_lines(&mut lines, names, &rows[i], i + 1);
        assert(texts(lines@) =~= top + row_blocks(texts(names@), views, (i + 1) as nat));
        i = i + 1;
    }
    let ghost before = lines@;
    lines.push(total_line(rows.len()));
    assert(texts(lines@) =~= texts(before).push(total_row(rows@.len())));
    assert(texts(lines@) =~= table_report(texts(names@), views, limit));
    lines
}

proof fn no_end_blank(s: Seq<char>)
    requires
        s.len() > 0,
        s.last() != ' ',
    ensures
        without_end_blanks(s) == s,
{
}

/// The line of a channel in a snapshot table reads back: its last field is the time in decimal,
/// before that stand the energy in watt-hours and the energy in picowatt-hours in decimal, and
/// first the name, whatever its length.
pub proof fn snapshot_reads_back(channel_name: Seq<char>, m: EmiMeasurement, energy_wh: Seq<char>)
    ensures
        is_numeral(last_field(snapshot_row(channel_name, m, energy_wh))),
        numeral_value(last_field(snapshot_row(channel_name, m, energy_wh))) == m.time_100ns,
        exists|pwh: Seq<char>, time: Seq<char>|
            is_numeral(pwh) && numeral_value(pwh) == m.energy_pwh && is_numeral(time)
                && numeral_value(time) == m.time_100ns && snapshot_row(channel_name, m, energy_wh)
                == #[trigger] (channel_name + gap(channel_name.len(), 35) + right_aligned(pwh, 18)
                + seq![' '] + right_aligned(energy_wh, 14) + seq![' '] + right_aligned(time, 20)),
        snapshot_row(channel_name, m, energy_wh).len() >= channel_name.len(),
        snapshot_row(channel_name, m, energy_wh).take(channel_name.len() as int) == channel_name,
        energy_wh.len() > 0 && !energy_wh.contains(' ') ==> {
            let without_time = before_last_field(snapshot_row(channel_name, m, energy_wh));
            let without_wh = before_last_field(without_time);
            &&& last_field(without_time) == energy_wh
            &&& is_numeral(last_field(without_wh))
            &&& numeral_value(last_field(without_wh)) == m.energy_pwh
            &&& before_last_field(without_wh) == without_end_blanks(channel_name)
        },
{
    reveal_strlit(" ");
    assert(" "@ =~= seq![' ']);
    let row = snapshot_row(channel_name, m, energy_wh);
    let pwh = decimal(m.energy_pwh as nat);
    let time = decimal(m.time_100ns as nat);
    decimal_reads_back(m.energy_pwh as nat);
    decimal_reads_back(m.time_100ns as nat);
    numeral_without_space(pwh);
    numeral_without_space(time);
    let name = left_aligned(channel_name, 35);
    let first = name + seq![' '] + right_aligned(pwh, 18);
    let second = first + seq![' '] + right_aligned(energy_wh, 14);
    assert(row =~= second + seq![' '] + right_aligned(time, 20));
    left_aligned_gap(channel_name, 35);
    assert(row =~= (left_aligned(channel_name, 35) + seq![' ']) + right_aligned(pwh, 18) + seq![' ']
        + right_aligned(energy_wh, 14) + seq![' '] + right_aligned(time, 20));
    assert(row == (channel_name + gap(channel_name.len(), 35) + right_aligned(pwh, 18) + seq![' ']
        + right_aligned(energy_wh, 14) + seq![' '] + right_aligned(time, 20)));
    assert(row.take(channel_name.len() as int) =~= channel_name);
    right_aligned_reads_back(second, time, 20);
    if energy_wh.len() > 0 && !energy_wh.contains(' ') {
        assert(energy_wh.contains(energy_wh.last()));
        assert(second.last() == energy_wh.last());
        no_end_blank(second);
        right_aligned_reads_back(first, energy_wh, 14);
        assert(pwh.contains(pwh.last()));
        assert(first.last() == pwh.last());
        no_end_blank(first);
        right_aligned_reads_back(name, pwh, 18);
        blanks_at_end(channel_name, fill(channel_name, 35).len());
    }
}

/// Lines of measurements with different counters differ, whatever else they hold.
pub proof fn snapshots_differ(
    channel_name: Seq<char>,
    other_name: Seq<char>,
    a: EmiMeasurement,
    b: EmiMeasurement,
    energy_wh: Seq<char>,
    other_wh: Seq<char>,
)
    requires
        snapshot_row(channel_name, a, energy_wh) == snapshot_row(other_name, b, other_wh),
    ensures
        a.time_100ns == b.time_100ns,
        energy_wh.len() > 0 && !energy_wh.contains(' ') && other_wh.len() > 0
            && !other_wh.contains(' ') ==> a == b && energy_wh == other_wh,
{
    snapshot_reads_back(channel_name, a, energy_wh);
    snapshot_reads_back(other_name, b, other_wh);
}

/// A snapshot table has its two head lines and then the line of each device, in their order and
/// each with its own measurement and energy.
pub proof fn snapshot_lines_in_order(
    devices: Seq<EmiDeviceView>,
    measurements: Seq<EmiMeasurement>,
    energies_wh: Seq<Seq<char>>,
    i: int,
)
    requires
        0 <= i < devices.len(),
    ensures
        snapshot_report(devices, measurements, energies_wh).len() == devices.len() + 2,
        snapshot_report(devices, measurements, energies_wh)[i + 2] == snapshot_row(
            devices[i].channel_name,
            measurements[i],
            energies_wh[i],
        ),
        numeral_value(last_field(snapshot_report(devices, measurements, energies_wh)[i + 2]))
            == measurements[i].time_100ns,
{
    snapshot_reads_back(devices[i].channel_name, measurements[i], energies_wh[i]);
}

/// The numbers of a line in JSON read back in decimal, and a comma follows all but the last.
pub proof fn json_numbers_read_back(
    channel_name: Seq<char>,
    m: EmiMeasurement,
    energy_wh: Seq<char>,
    is_last: bool,
)
    ensures
        exists|pwh: Seq<char>, time: Seq<char>|
            is_numeral(pwh) && numeral_value(pwh) == m.energy_pwh && is_numeral(time)
                && numeral_value(time) == m.time_100ns && json_row(
                channel_name,
                m,
                energy_wh,
                is_last,
            ) == #[trigger] ("  {\"channel\": \""@ + escaped(channel_name)
                + "\", \"energy_pwh\": "@ + pwh + ", \"energy_wh\": "@ + energy_wh
                + ", \"time_100ns\": "@ + time + "}"@) + (if is_last {
                Seq::empty()
            } else {
                seq![',']
            }),
{
    reveal_strlit(",");
    assert(","@ =~= seq![',']);
    let pwh = decimal(m.energy_pwh as nat);
    let time = decimal(m.time_100ns as nat);
    decimal_reads_back(m.energy_pwh as nat);
    decimal_reads_back(m.time_100ns as nat);
    let head = "  {\"channel\": \""@ + escaped(channel_name) + "\", \"energy_pwh\": "@ + pwh
        + ", \"energy_wh\": "@ + energy_wh + ", \"time_100ns\": "@ + time + "}"@;
    assert(json_row(channel_name, m, energy_wh, is_last) =~= head + (if is_last {
        Seq::empty()
    } else {
        seq![',']
    }));
}

/// A snapshot in JSON is one array: an opening bracket, the object of each device in their
/// order, each with its own measurement and energy and the last one without a comma, and a
/// closing bracket.
pub proof fn json_lines_in_order(
    devices: Seq<EmiDeviceView>,
    measurements: Seq<EmiMeasurement>,
    energies_wh: Seq<Seq<char>>,
    i: int,
)
    ensures
        json_report(devices, measurements, energies_wh).len() == devices.len() + 2,
        json_report(devices, measurements, energies_wh)[0] == seq!['['],
        json_report(devices, measurements, energies_wh).last() == seq![']'],
        0 <= i < devices.len() ==> json_report(devices, measurements, energies_wh)[i + 1]
            == json_row(
            devices[i].channel_name,
            measurements[i],
            energies_wh[i],
            i + 1 == devices.len(),
        ),
{
    reveal_strlit("[");
    reveal_strlit("]");
    assert("["@ =~= seq!['[']);
    assert("]"@ =~= seq![']']);
}

/// The line of a device holds its own channel, manufacturer, model, revision in decimal, and
/// path, each as a whole and with spaces between them.
pub proof fn device_row_reads_back(d: EmiDeviceView)
    ensures
        exists|revision: Seq<char>|
            is_numeral(revision) && numeral_value(revision) == d.hw_revision && device_row(d)
                == #[trigger] (d.channel_name + gap(d.channel_name.len(), 35) + d.oem + gap(
                d.oem.len(),
                8,
            ) + d.model + gap(d.model.len(), 10) + revision + gap(revision.len(), 5) + d.path),
{
    reveal_strlit(" ");
    assert(" "@ =~= seq![' ']);
    let revision = decimal(d.hw_revision as nat);
    decimal_reads_back(d.hw_revision as nat);
    left_aligned_gap(d.channel_name, 35);
    left_aligned_gap(d.oem, 8);
    left_aligned_gap(d.model, 10);
    left_aligned_gap(revision, 5);
    let a = left_aligned(d.channel_name, 35) + seq![' '];
    let b = left_aligned(d.oem, 8) + seq![' '];
    let c = left_aligned(d.model, 10) + seq![' '];
    let e = left_aligned(revision, 5) + seq![' '];
    assert(device_row(d) =~= a + b + c + e + d.path);
    assert(device_row(d) =~= (d.channel_name + gap(d.channel_name.len(), 35) + d.oem + gap(
        d.oem.len(),
        8,
    ) + d.model + gap(d.model.len(), 10) + revision + gap(revision.len(), 5) + d.path));
}

/// A device list has the line of each device in their order, and counts them all.
pub proof fn device_lines_in_order(devices: Seq<EmiDeviceView>, i: int)
    requires
        0 <= i < devices.len(),
    ensures
        device_list(devices).len() == devices.len() + 4,
        device_list(devices)[i + 2] == device_row(devices[i]),
        exists|count: Seq<char>|
            is_numeral(count) && numeral_value(count) == devices.len() && device_list(
                devices,
            ).last() == #[trigger] (count + " device(s) found."@),
{
    decimal_reads_back(devices.len());
    assert(device_list(devices).last() == decimal(devices.len()) + " device(s) found."@);
}

/// A table can be asked for by its own name, which starts with a brace. Any other request is for
/// a table only by one of four words.
pub proof fn requests_by_name(request: Seq<char>)
    ensures
        begins_with(request, '{') ==> requested_table(request) == Some(request),
        !begins_with(request, '{') ==> (requested_table(request) is Some <==> request == "energy"@
            || request == "energy-lt"@ || request == "estimator"@ || request == "tagged"@),
{
    reveal_strlit("energy");
    reveal_strlit("energy-lt");
    reveal_strlit("estimator");
    reveal_strlit("tagged");
}

/// The lines of listed tables are in their order, each with its own name and friendly name.
pub proof fn table_lines_in_order(tables: Seq<(Seq<char>, usize)>, i: int)
    requires
        0 <= i < tables.len(),
    ensures
        table_list(tables).len() == tables.len() + 2,
        table_list(tables)[i + 2] == "  "@ + tables[i].0 + " ("@ + friendly_name(tables[i].0)
            + ")"@,
{
}

/// As many rows are shown as there are, or as many as asked for if those are fewer.
pub proof fn shown_rows_are_the_fewer(total: nat, n: usize)
    ensures
        shown_rows(total, None) == total,
        shown_rows(total, Some(n)) <= total,
        shown_rows(total, Some(n)) <= n,
        shown_rows(total, Some(n)) == total || shown_rows(total, Some(n)) == n,
{
}

/// The number of all rows reads back from the last line of a report.
pub proof fn total_reads_back(total: nat)
    ensures
        exists|count: Seq<char>|
            is_numeral(count) && numeral_value(count) == total && total_row(total) == #[trigger] (
            "Total: "@ + count + " rows"@),
{
    decimal_reads_back(total);
    assert(total_row(total) == "Total: "@ + decimal(total) + " rows"@);
}

/// A comma-separated report has the names, then each shown row in its place, and at the end the
/// number of all rows.
pub proof fn csv_lines_in_order(
    names: Seq<Seq<char>>,
    rows: Seq<Seq<CellView>>,
    limit: Option<usize>,
    i: int,
)
    ensures
        csv_report(names, rows, limit).len() == shown_rows(rows.len(), limit) + 2,
        csv_report(names, rows, limit)[0] == join(names, seq![',']),
        0 <= i < shown_rows(rows.len(), limit) ==> csv_report(names, rows, limit)[i + 1] == join(
            rows[i].map_values(|c: CellView| c.text),
            seq![','],
        ),
        csv_report(names, rows, limit).last() == total_row(rows.len()),
{
    reveal_strlit(",");
    assert(","@ =~= seq![',']);
}

/// The line of a cell holds the name of its column and its text, each as a whole.
pub proof fn cell_row_reads_back(name: Seq<char>, text: Seq<char>)
    ensures
        cell_row(name, text) == seq![' ', ' '] + name + gap(name.len(), 30) + text,
{
    reveal_strlit("  ");
    reveal_strlit(" ");
    assert(" "@ =~= seq![' ']);
    assert("  "@ =~= seq![' ', ' ']);
    left_aligned_gap(name, 30);
    let field = left_aligned(name, 30) + seq![' '];
    assert(cell_row(name, text) =~= seq![' ', ' '] + field + text);
    assert(cell_row(name, text) =~= seq![' ', ' '] + name + gap(name.len(), 30) + text);
}

/// The lines of a row are those of its cells in their order, each under its own column name,
/// without those that hold nothing.
pub proof fn cells_in_order(names: Seq<Seq<char>>, row: Seq<CellView>, n: nat)
    ensures
        cell_block(names, row, 0) == Seq::<Seq<char>>::empty(),
        cell_block(names, row, n + 1) == if row[n as int].is_null {
            cell_block(names, row, n)
        } else {
            cell_block(names, row, n).push(
                seq![' ', ' '] + names[n as int] + gap(names[n as int].len(), 30)
                    + row[n as int].text,
            )
        },
{
    cell_row_reads_back(names[n as int], row[n as int].text);
}

/// The lines of rows follow one another: the number of the row, counted from one, the lines of
/// all its cells, and an empty line.
pub proof fn rows_in_order(names: Seq<Seq<char>>, rows: Seq<Seq<CellView>>, n: nat)
    ensures
        row_blocks(names, rows, 0) == Seq::<Seq<char>>::empty(),
        exists|number: Seq<char>|
            is_numeral(number) && numeral_value(number) == n + 1 && row_blocks(names, rows, n + 1)
                == row_blocks(names, rows, n) + seq![#[trigger] ("--- Row "@ + number + " ---"@)]
                + cell_block(names, rows[n as int], rows[n as int].len()) + seq![Seq::empty()],
{
    decimal_reads_back(n + 1);
    let number = decimal(n + 1);
    assert(row_blocks(names, rows, n + 1) =~= row_blocks(names, rows, n) + seq![
        ("--- Row "@ + number + " ---"@),
    ] + cell_block(names, rows[n as int], rows[n as int].len()) + seq![Seq::empty()]);
}

/// A table report says how many rows there are and how many are shown, has the lines of those,
/// and ends with the number of all rows.
pub proof fn table_report_in_order(
    names: Seq<Seq<char>>,
    rows: Seq<Seq<CellView>>,
    limit: Option<usize>,
)
    ensures
        exists|all: Seq<char>, shown: Seq<char>|
            is_numeral(all) && numeral_value(all) == rows.len() && is_numeral(shown)
                && numeral_value(shown) == shown_rows(rows.len(), limit) && table_report(
                names,
                rows,
                limit,
            ) == seq![
                #[trigger] (all + " rows total (showing "@ + shown + ")"@),
                Seq::empty(),
            ] + row_blocks(names, rows, shown_rows(rows.len(), limit)) + seq![
                total_row(rows.len()),
            ],
{
    let all = decimal(rows.len());
    let shown = decimal(shown_rows(rows.len(), limit));
    decimal_reads_back(rows.len());
    decimal_reads_back(shown_rows(rows.len(), limit));
    assert(table_report(names, rows, limit) =~= seq![
        (all + " rows total (showing "@ + shown + ")"@),
        Seq::empty(),
    ] + row_blocks(names, rows, shown_rows(rows.len(), limit)) + seq![total_row(rows.len())]);
}

/// Cells are seen with all of their fields, and rows cell by cell.
pub proof fn cells_are_seen_whole(rows: Seq<Vec<Cell>>, i: int, j: int)
    requires
        0 <= i < rows.len(),
        0 <= j < rows[i]@.len(),
    ensures
        cell_row_views(rows).len() == rows.len(),
        cell_row_views(rows)[i].len() == rows[i]@.len(),
        cell_row_views(rows)[i][j].is_null == rows[i]@[j].is_null,
        cell_row_views(rows)[i][j].text == rows[i]@[j].text@,
{
}

} // verus!
