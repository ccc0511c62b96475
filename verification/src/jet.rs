//! The protocol of the database engine: status codes, walking through the records of a table,
//! and listing the columns of a table.

use vstd::prelude::*;
use vstd::string::*;

use crate::blob::blob_text;
use crate::bytes::{bytes_value, numbers_hold_all_bytes};
use crate::column::{ColumnInfo, ColumnInfoView, Retrieved, RetrievedView};
use crate::text::{
    signed_decimal, signed_decimal_reads_back, signed_decimal_text, signed_value,
};

verus! {

/// The offset that moves to the first record.
pub const MOVE_FIRST: i32 = -2147483648;

/// The offset that moves to the next record.
pub const MOVE_NEXT: i32 = 1;

/// The flag with which databases are attached and opened, and tables opened: for reading only.
pub const READ_ONLY: u32 = 1;

/// The information level that asks for all columns of a table as a list.
pub const COLUMN_LIST_LEVEL: u32 = 1;

/// A call that failed, and its status code.
#[derive(Debug)]
pub struct JetError {
    pub op: String,
    pub code: i32,
}

/// The error of a call with a status code, in words.
pub open spec fn jet_error_text(op: Seq<char>, code: int) -> Seq<char> {
    op + " failed with JET error "@ + signed_decimal(code)
}

impl JetError {
    /// The error in words.
    pub fn message(&self) -> (res: String)
        ensures
            res@ == jet_error_text(self.op@, self.code as int),
    {
        let mut out = self.op.clone();
        out.append(" failed with JET error ");
        let code = signed_decimal_text(self.code as i64);
        out.append(code.as_str());
        out
    }
}

/// Checks a status code: a negative one is an error of the call `op`.
pub fn jet_check(err: i32, op: &str) -> (res: Result<(), JetError>)
    ensures
        res is Ok <==> err >= 0,
        res matches Err(e) ==> e.op@ == op@ && e.code == err,
{
    if err < 0 {
        return Err(JetError { op: op.to_owned(), code: err });
    }
    Ok(())
}

/// What to do next on the way through the records of a table.
#[derive(Debug, Clone, Copy, PartialEq, Eq, Structural)]
pub enum CursorStep {
    /// Move by this offset.
    Move(i32),
    /// Read the current record.
    Read,
    /// Close the table.
    Close,
}

impl CursorStep {
    /// After a move: there is a record to read unless the status is negative.
    pub open spec fn after_move(err: i32) -> CursorStep {
        if err >= 0 {
            CursorStep::Read
        } else {
            CursorStep::Close
        }
    }

    /// The first step: move to the first record.
    pub fn start() -> (res: CursorStep)
        ensures
            res == CursorStep::Move(MOVE_FIRST),
    {
        CursorStep::Move(MOVE_FIRST)
    }

    /// The step after a move that ended with the status `err`.
    pub fn moved(err: i32) -> (res: CursorStep)
        ensures
            res == CursorStep::after_move(err),
    {
        if err >= 0 {
            CursorStep::Read
        } else {
            CursorStep::Close
        }
    }

    /// The step after a record was read: move to the next one.
    pub fn read() -> (res: CursorStep)
        ensures
            res == CursorStep::Move(MOVE_NEXT),
    {
        CursorStep::Move(MOVE_NEXT)
    }
}

/// How many moves succeed before the first that fails.
pub open spec fn records_before_end(statuses: Seq<i32>) -> nat
    decreases statuses.len(),
{
    if statuses.len() == 0 || statuses[0] < 0 {
        0
    } else {
        1 + records_before_end(statuses.drop_first())
    }
}

/// Where a walk stands after moves with these statuses, when it has read so many records: it
/// goes to the first record, then from one to the next, and ends at the first move that fails.
pub open spec fn is_walk(step: CursorStep, statuses: Seq<i32>, read: nat) -> bool {
    match step {
        CursorStep::Move(offset) => {
            &&& statuses.len() == read
            &&& forall|i: int| 0 <= i < read ==> statuses[i] >= 0
            &&& offset == if read == 0 {
                MOVE_FIRST
            } else {
                MOVE_NEXT
            }
        },
        CursorStep::Read => {
            &&& statuses.len() == read + 1
            &&& forall|i: int| 0 <= i < statuses.len() ==> statuses[i] >= 0
        },
        CursorStep::Close => {
            &&& statuses.len() == read + 1
            &&& forall|i: int| 0 <= i < read ==> statuses[i] >= 0
            &&& statuses[read as int] < 0
        },
    }
}

proof fn successes_before_end(statuses: Seq<i32>, n: nat)
    requires
        n < statuses.len(),
        forall|i: int| 0 <= i < n ==> statuses[i] >= 0,
        statuses[n as int] < 0,
    ensures
        records_before_end(statuses) == n,
    decreases n,
{
    if n > 0 {
        assert(statuses[0] >= 0);
        successes_before_end(statuses.drop_first(), (n - 1) as nat);
    }
}

/// A walk that is at its end has read a record for each move before the one that failed.
pub proof fn walk_reads_every_record(statuses: Seq<i32>, read: nat)
    requires
        is_walk(CursorStep::Close, statuses, read),
    ensures
        read == records_before_end(statuses),
{
    successes_before_end(statuses, read);
}

/// The cells of one record of a column list.
#[verifier::ext_equal]
pub struct ColumnRow {
    pub name: RetrievedView,
    pub id: RetrievedView,
    pub col_type: RetrievedView,
}

/// The column that a record describes; what could not be read counts as empty or zero.
pub open spec fn described_column(row: ColumnRow) -> ColumnInfoView {
    ColumnInfoView {
        name: match row.name.text() {
            Some(text) => text,
            None => Seq::empty(),
        },
        id: match row.id.number() {
            Some(v) => v,
            None => 0,
        },
        col_type: match row.col_type.number() {
            Some(v) => v,
            None => 0,
        },
    }
}

/// Whether a record describes a column with a name.
pub open spec fn is_named(row: ColumnRow) -> bool {
    described_column(row).name.len() > 0
}

/// The columns that records describe: those with a name, in the order of the records.
pub open spec fn described_columns(rows: Seq<ColumnRow>) -> Seq<ColumnInfoView>
    decreases rows.len(),
{
    if rows.len() == 0 {
        Seq::empty()
    } else if is_named(rows.last()) {
        described_columns(rows.drop_last()).push(described_column(rows.last()))
    } else {
        described_columns(rows.drop_last())
    }
}

/// The columns of a listing are exactly the named ones among those described, in their order.
pub proof fn described_columns_are_the_named(rows: Seq<ColumnRow>)
    ensures
        described_columns(rows) == rows.filter(|row: ColumnRow| is_named(row)).map_values(
            |row: ColumnRow| described_column(row),
        ),
    decreases rows.len(),
{
    reveal(Seq::filter);
    let named = |row: ColumnRow| is_named(row);
    let column = |row: ColumnRow| described_column(row);
    if rows.len() > 0 {
        described_columns_are_the_named(rows.drop_last());
        let kept = rows.drop_last().filter(named);
        assert(kept.push(rows.last()).map_values(column) =~= kept.map_values(column).push(
            column(rows.last()),
        ));
        assert(described_columns(rows) =~= rows.filter(named).map_values(column));
    } else {
        assert(described_columns(rows) =~= rows.filter(named).map_values(column));
    }
}

/// The error of a call that gives no list, in words.
pub open spec fn list_error_text(call: Seq<char>, code: int) -> Seq<char> {
    call + " failed: "@ + signed_decimal(code)
}

/// The error of a table whose columns cannot be listed, in words.
pub fn column_list_message(err: i32) -> (res: String)
    ensures
        res@ == list_error_text("JetGetTableColumnInfoW"@, err as int),
{
    let mut out: String = "JetGetTableColumnInfoW".to_owned();
    out.append(" failed: ");
    let code = signed_decimal_text(err as i64);
    out.append(code.as_str());
    out
}

/// What to do next when the columns of a table, or the tables of a database, are listed.
#[derive(Debug, Clone, Copy, PartialEq, Eq, Structural)]
pub enum ScanStep {
    /// Ask for the list, at this information level.
    Query(u32),
    /// Walk through it.
    Walk(CursorStep),
    /// All is listed.
    Done,
    /// There is no list; the status says why.
    Failed(i32),
}

/// The step after a list was asked for: a walk through it unless the status is negative.
pub open spec fn after_query(err: i32) -> ScanStep {
    if err < 0 {
        ScanStep::Failed(err)
    } else {
        ScanStep::Walk(CursorStep::Move(MOVE_FIRST))
    }
}

/// The views of a sequence of columns.
pub open spec fn column_views(columns: Seq<ColumnInfo>) -> Seq<ColumnInfoView> {
    columns.map_values(|c: ColumnInfo| c@)
}

/// A listing of the columns of a table, in progress.
pub struct ColumnScan {
    step: ScanStep,
    columns: Vec<ColumnInfo>,
    rows: Ghost<Seq<ColumnRow>>,
    moves: Ghost<Seq<i32>>,
}

impl ColumnScan {
    /// What to do next.
    pub closed spec fn next(&self) -> ScanStep {
        self.step
    }

    /// The records that were read so far.
    pub closed spec fn read_rows(&self) -> Seq<ColumnRow> {
        self.rows@
    }

    /// The statuses of the moves so far.
    pub closed spec fn move_statuses(&self) -> Seq<i32> {
        self.moves@
    }

    #[verifier::type_invariant]
    closed spec fn lists_what_was_read(&self) -> bool {
        &&& column_views(self.columns@) == described_columns(self.rows@)
        &&& match self.step {
            ScanStep::Query(_) => self.rows@.len() == 0 && self.moves@.len() == 0,
            ScanStep::Walk(cursor) => is_walk(cursor, self.moves@, self.rows@.len()),
            ScanStep::Done => is_walk(CursorStep::Close, self.moves@, self.rows@.len()),
            ScanStep::Failed(_) => true,
        }
    }

    /// Starts a listing.
    pub fn new() -> (res: ColumnScan)
        ensures
            res.next() == ScanStep::Query(COLUMN_LIST_LEVEL),
            res.read_rows().len() == 0,
            res.move_statuses().len() == 0,
    {
        let columns: Vec<ColumnInfo> = Vec::new();
        let ghost none = Seq::<ColumnRow>::empty();
        assert(column_views(columns@) == described_columns(none));
        ColumnScan {
            step: ScanStep::Query(COLUMN_LIST_LEVEL),
            columns,
            rows: Ghost(none),
            moves: Ghost(Seq::empty()),
        }
    }

    /// Tells what to do next.
    pub fn step(&self) -> (res: ScanStep)
        ensures
            res == self.next(),
            res matches ScanStep::Walk(cursor) ==> is_walk(
                cursor,
                self.move_statuses(),
                self.read_rows().len(),
            ),
    {
        proof {
            use_type_invariant(self);
        }
        self.step
    }

    /// The column list was asked for, with this status.
    pub fn queried(self, err: i32) -> (res: ColumnScan)
        requires
            self.next() == ScanStep::Query(COLUMN_LIST_LEVEL),
        ensures
            res.next() == after_query(err),
            res.read_rows() == self.read_rows(),
            res.move_statuses() == self.move_statuses(),
    {
        proof {
            use_type_invariant(&self);
        }
        let step = if err < 0 {
            ScanStep::Failed(err)
        } else {
            ScanStep::Walk(CursorStep::start())
        };
        ColumnScan { step, columns: self.columns, rows: self.rows, moves: self.moves }
    }

    /// A move ended with this status.
    pub fn moved(self, err: i32) -> (res: ColumnScan)
        requires
            self.next() matches ScanStep::Walk(CursorStep::Move(_)),
        ensures
            res.next() == ScanStep::Walk(CursorStep::after_move(err)),
            res.read_rows() == self.read_rows(),
            res.move_statuses() == self.move_statuses().push(err),
    {
        proof {
            use_type_invariant(&self);
        }
        ColumnScan {
            step: ScanStep::Walk(CursorStep::moved(err)),
            columns: self.columns,
            rows: self.rows,
            moves: Ghost(self.moves@.push(err)),
        }
    }

    /// A record was read.
    pub fn row(self, name: &Retrieved, id: &Retrieved, col_type: &Retrieved) -> (res: ColumnScan)
        requires
            self.next() == ScanStep::Walk(CursorStep::Read),
            name@.fits(),
            id@.buf.len() >= 4,
            col_type@.buf.len() >= 4,
        ensures
            res.next() == ScanStep::Walk(CursorStep::Move(MOVE_NEXT)),
            res.read_rows() == self.read_rows().push(
                (ColumnRow { name: name@, id: id@, col_type: col_type@ }),
            ),
            res.move_statuses() == self.move_statuses(),
    {
        proof {
            use_type_invariant(&self);
        }
        let ghost row = ColumnRow { name: name@, id: id@, col_type: col_type@ };
        let ghost read = self.rows@;
        let ghost rows = read.push(row);
        let ghost before = self.columns@;
        proof {
            assert(rows.drop_last() =~= read);
        }
        let text = match name.retrieve_string() {
            Some(text) => text,
            None => String::new(),
        };
        let number: u32 = match id.retrieve_u32() {
            Some(v) => v,
            None => 0,
        };
        let kind: u32 = match col_type.retrieve_u32() {
            Some(v) => v,
            None => 0,
        };
        let mut columns = self.columns;
        if !text.as_str().is_empty() {
            columns.push(ColumnInfo { name: text, id: number, col_type: kind });
            assert(column_views(columns@) == column_views(before).push(columns@.last()@));
        }
        ColumnScan {
            step: ScanStep::Walk(CursorStep::read()),
            columns,
            rows: Ghost(rows),
            moves: self.moves,
        }
    }

    /// The column list was closed.
    pub fn closed(self) -> (res: ColumnScan)
        requires
            self.next() == ScanStep::Walk(CursorStep::Close),
        ensures
            res.next() == ScanStep::Done,
            res.read_rows() == self.read_rows(),
            res.move_statuses() == self.move_statuses(),
    {
        proof {
            use_type_invariant(&self);
        }
        ColumnScan {
            step: ScanStep::Done,
            columns: self.columns,
            rows: self.rows,
            moves: self.moves,
        }
    }

    /// The columns of the table; in the end, those of every record of the column list.
    pub fn into_columns(self) -> (res: Vec<ColumnInfo>)
        ensures
            column_views(res@) == described_columns(self.read_rows()),
            self.next() == ScanStep::Done ==> self.read_rows().len() == records_before_end(
                self.move_statuses(),
            ),
    {
        proof {
            use_type_invariant(&self);
            if self.step == ScanStep::Done {
                walk_reads_every_record(self.moves@, self.rows@.len());
            }
        }
        self.columns
    }
}

/// What a cell with four bytes was read as: the number that the bytes make up, and zero where
/// there are not four.
pub open spec fn is_number_of(v: int, cell: RetrievedView) -> bool {
    v == if cell.err >= 0 && cell.actual == 4 {
        bytes_value(cell.buf, 0, 4)
    } else {
        0
    }
}

/// A column is described by its own record: the name is the text of the bytes in the name cell,
/// identifier and type are the numbers in theirs.
pub proof fn columns_describe_their_record(row: ColumnRow)
    ensures
        described_column(row).name == if row.name.err >= 0 && row.name.actual > 0 {
            blob_text(row.name.buf.take(row.name.actual as int))
        } else {
            Seq::empty()
        },
        is_number_of(described_column(row).id as int, row.id),
        is_number_of(described_column(row).col_type as int, row.col_type),
        is_named(row) <==> described_column(row).name != Seq::<char>::empty(),
{
    numbers_hold_all_bytes(row.id.buf, 0);
    numbers_hold_all_bytes(row.col_type.buf, 0);
    if described_column(row).name.len() == 0 {
        assert(described_column(row).name =~= Seq::<char>::empty());
    }
}

/// A record is read after a move exactly if the status is not negative.
pub proof fn moves_lead_to_records(err: i32)
    ensures
        CursorStep::after_move(err) == CursorStep::Read <==> err >= 0,
        CursorStep::after_move(err) == CursorStep::Close <==> err < 0,
{
}

/// A list is walked through exactly if the status is not negative; a negative one is handed on.
pub proof fn queries_lead_to_lists(err: i32)
    ensures
        after_query(err) is Walk <==> err >= 0,
        after_query(err) == ScanStep::Failed(err) <==> err < 0,
{
}

/// The status code is read back from an error in words, and so is the call.
pub proof fn error_codes_read_back(op: Seq<char>, code: int)
    ensures
        exists|number: Seq<char>|
            signed_value(number) == code && jet_error_text(op, code) == #[trigger] (op
                + " failed with JET error "@ + number),
        exists|number: Seq<char>|
            signed_value(number) == code && list_error_text(op, code) == #[trigger] (op
                + " failed: "@ + number),
{
    signed_decimal_reads_back(code);
    let number = signed_decimal(code);
    assert(jet_error_text(op, code) == (op + " failed with JET error "@ + number));
    assert(list_error_text(op, code) == (op + " failed: "@ + number));
}

} // verus!
