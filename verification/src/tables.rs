//! Reading a table record by record.

use vstd::prelude::*;
use vstd::string::*;

use crate::column::{
    answers, cell_value, cells_hold_their_bytes, fits_bytes, retrieve_column_value, ColumnInfo,
    ColumnInfoView, ColumnValue, ColumnValueView, Retrieved, RetrievedView,
};
use crate::database::{identifiers_become_names, resolved, SrumDatabase};
use crate::jet::{
    column_views, is_walk, jet_check, records_before_end, walk_reads_every_record, CursorStep,
    JetError, MOVE_FIRST, MOVE_NEXT, READ_ONLY,
};
use crate::srum::{ENERGY_USAGE_LT_TABLE, ENERGY_USAGE_TABLE};
use crate::text::texts;
use crate::utf16::{to_wide, wide};

verus! {

/// The views of a sequence of values.
pub open spec fn value_views(values: Seq<ColumnValue>) -> Seq<ColumnValueView> {
    values.map_values(|v: ColumnValue| v@)
}

/// The views of a sequence of records.
pub open spec fn row_views(rows: Seq<Vec<ColumnValue>>) -> Seq<Seq<ColumnValueView>> {
    rows.map_values(|row: Vec<ColumnValue>| value_views(row@))
}

/// The views of a sequence of answers.
pub open spec fn answer_views(cells: Seq<Retrieved>) -> Seq<RetrievedView> {
    cells.map_values(|c: Retrieved| c@)
}

/// Whether there is an answer for each column.
pub open spec fn answers_all(cells: Seq<RetrievedView>, columns: Seq<ColumnInfoView>) -> bool {
    &&& cells.len() == columns.len()
    &&& forall|i: int| 0 <= i < columns.len() ==> answers(#[trigger] cells[i], columns[i].col_type)
}

/// The values of a record, with identifiers replaced by names.
pub open spec fn record(
    names: Map<u32, Seq<char>>,
    columns: Seq<ColumnInfoView>,
    cells: Seq<RetrievedView>,
) -> Seq<ColumnValueView> {
    Seq::new(
        columns.len(),
        |i: int| resolved(names, columns[i].name, cell_value(cells[i], columns[i].col_type)),
    )
}

/// Reads a record, with identifiers replaced by names.
pub fn read_record(
    database: &SrumDatabase,
    columns: &Vec<ColumnInfo>,
    cells: &Vec<Retrieved>,
) -> (res: Vec<ColumnValue>)
    requires
        answers_all(answer_views(cells@), column_views(columns@)),
    ensures
        value_views(res@) == record(
            database.names(),
            column_views(columns@),
            answer_views(cells@),
        ),
{
    let ghost all = record(database.names(), column_views(columns@), answer_views(cells@));
    let mut row: Vec<ColumnValue> = Vec::new();
    let mut i: usize = 0;
    while i < columns.len()
        invariant
            0 <= i <= columns@.len(),
            answers_all(answer_views(cells@), column_views(columns@)),
            all == record(database.names(), column_views(columns@), answer_views(cells@)),
            value_views(row@) == all.take(i as int),
        decreases columns@.len() - i,
    {
        let ghost before = row@;
        assert(answers(answer_views(cells@)[i as int], column_views(columns@)[i as int].col_type));
        let value = retrieve_column_value(&cells[i], columns[i].col_type);
        let value = database.resolve_value(columns[i].name.as_str(), value);
        row.push(value);
        proof {
            assert(value_views(row@) =~= value_views(before).push(row@.last()@));
            assert(all.take(i + 1) =~= all.take(i as int).push(all[i as int]));
        }
        i = i + 1;
    }
    proof {
        assert(all.take(i as int) =~= all);
    }
    row
}

/// What to do next when a table is read.
#[derive(Debug, Clone, Copy, PartialEq, Eq, Structural)]
pub enum ReadStep {
    /// Open the table, with this flag.
    OpenTable(u32),
    /// List its columns.
    ListColumns,
    /// Walk through it.
    Walk(CursorStep),
    /// All records are read.
    Done,
}

/// A reading of a table, in progress.
pub struct TableRead<'a> {
    database: &'a SrumDatabase,
    table: String,
    step: ReadStep,
    columns: Vec<ColumnInfo>,
    rows: Vec<Vec<ColumnValue>>,
    moves: Ghost<Seq<i32>>,
}

impl SrumDatabase {
    /// Starts to read a table.
    pub fn read_table<'a>(&'a self, table_guid: &str) -> (res: TableRead<'a>)
        ensures
            res.names() == self.names(),
            res.table_name() == table_guid@,
            res.next() == ReadStep::OpenTable(READ_ONLY),
            res.column_list().len() == 0,
            res.records().len() == 0,
            res.move_statuses().len() == 0,
    {
        TableRead {
            database: self,
            table: table_guid.to_owned(),
            step: ReadStep::OpenTable(READ_ONLY),
            columns: Vec::new(),
            rows: Vec::new(),
            moves: Ghost(Seq::empty()),
        }
    }

    /// Starts to read the energy use of each application.
    pub fn read_energy_usage<'a>(&'a self) -> (res: TableRead<'a>)
        ensures
            res.names() == self.names(),
            res.table_name() == ENERGY_USAGE_TABLE@,
            res.next() == ReadStep::OpenTable(READ_ONLY),
            res.column_list().len() == 0,
            res.records().len() == 0,
            res.move_statuses().len() == 0,
    {
        self.read_table(ENERGY_USAGE_TABLE)
    }

    /// Starts to read the energy use over a longer time.
    pub fn read_energy_usage_lt<'a>(&'a self) -> (res: TableRead<'a>)
        ensures
            res.names() == self.names(),
            res.table_name() == ENERGY_USAGE_LT_TABLE@,
            res.next() == ReadStep::OpenTable(READ_ONLY),
            res.column_list().len() == 0,
            res.records().len() == 0,
            res.move_statuses().len() == 0,
    {
        self.read_table(ENERGY_USAGE_LT_TABLE)
    }
}

/// The name of the call that opens a table.
pub open spec fn open_table_op(table: Seq<char>) -> Seq<char> {
    "JetOpenTableW("@ + table + ")"@
}

impl<'a> TableRead<'a> {
    /// The names of the identifiers.
    pub closed spec fn names(&self) -> Map<u32, Seq<char>> {
        self.database.names()
    }

    /// The table that is read.
    pub closed spec fn table_name(&self) -> Seq<char> {
        self.table@
    }

    /// What to do next.
    pub closed spec fn next(&self) -> ReadStep {
        self.step
    }

    /// The columns of the table.
    pub closed spec fn column_list(&self) -> Seq<ColumnInfoView> {
        column_views(self.columns@)
    }

    /// The records that were read so far.
    pub closed spec fn records(&self) -> Seq<Seq<ColumnValueView>> {
        row_views(self.rows@)
    }

    /// The statuses of the moves so far.
    pub closed spec fn move_statuses(&self) -> Seq<i32> {
        self.moves@
    }

    /// Every record has a value for each column, and there is one for each move that succeeded.
    #[verifier::type_invariant]
    closed spec fn records_are_full(&self) -> bool {
        &&& forall|i: int|
            0 <= i < self.rows@.len() ==> (#[trigger] self.rows@[i])@.len() == self.columns@.len()
        &&& match self.step {
            ReadStep::Walk(cursor) => is_walk(cursor, self.moves@, self.rows@.len()),
            ReadStep::Done => self.rows@.len() == records_before_end(self.moves@),
            _ => self.rows@.len() == 0 && self.moves@.len() == 0,
        }
    }

    /// Tells what to do next.
    pub fn step(&self) -> (res: ReadStep)
        ensures
            res == self.next(),
            res matches ReadStep::Walk(cursor) ==> is_walk(
                cursor,
                self.move_statuses(),
                self.records().len(),
            ),
    {
        proof {
            use_type_invariant(self);
        }
        self.step
    }

    /// The name of the table as the engine takes it.
    pub fn wide_name(&self) -> (res: Vec<u16>)
        ensures
            res@ == wide(self.table_name()),
    {
        to_wide(self.table.as_str())
    }

    /// The columns of the table, to be read from each record.
    pub fn columns(&self) -> (res: &Vec<ColumnInfo>)
        ensures
            column_views(res@) == self.column_list(),
    {
        &self.columns
    }

    /// Opening the table ended with this status.
    pub fn opened(self, err: i32) -> (res: Result<TableRead<'a>, JetError>)
        requires
            self.next() == ReadStep::OpenTable(READ_ONLY),
        ensures
            match res {
                Ok(read) => {
                    &&& err >= 0
                    &&& read.next() == ReadStep::ListColumns
                    &&& read.names() == self.names()
                    &&& read.table_name() == self.table_name()
                    &&& read.column_list() == self.column_list()
                    &&& read.records() == self.records()
                    &&& read.move_statuses() == self.move_statuses()
                },
                Err(e) => err < 0 && e.op@ == open_table_op(self.table_name()) && e.code == err,
            },
    {
        proof {
            use_type_invariant(&self);
        }
        let mut op: String = "JetOpenTableW(".to_owned();
        op.append(self.table.as_str());
        op.append(")");
        match jet_check(err, op.as_str()) {
            Ok(_) => Ok(
                TableRead {
                    database: self.database,
                    table: self.table,
                    step: ReadStep::ListColumns,
                    columns: self.columns,
                    rows: self.rows,
                    moves: self.moves,
                },
            ),
            Err(e) => Err(e),
        }
    }

    /// The table has these columns.
    pub fn listed(self, columns: Vec<ColumnInfo>) -> (res: TableRead<'a>)
        requires
            self.next() == ReadStep::ListColumns,
        ensures
            res.next() == ReadStep::Walk(CursorStep::Move(MOVE_FIRST)),
            res.names() == self.names(),
            res.table_name() == self.table_name(),
            res.column_list() == column_views(columns@),
            res.records().len() == 0,
            res.move_statuses().len() == 0,
    {
        TableRead {
            database: self.database,
            table: self.table,
            step: ReadStep::Walk(CursorStep::start()),
            columns,
            rows: Vec::new(),
            moves: Ghost(Seq::empty()),
        }
    }

    /// A move ended with this status.
    pub fn moved(self, err: i32) -> (res: TableRead<'a>)
        requires
            self.next() matches ReadStep::Walk(CursorStep::Move(_)),
        ensures
            res.next() == ReadStep::Walk(CursorStep::after_move(err)),
            res.names() == self.names(),
            res.table_name() == self.table_name(),
            res.column_list() == self.column_list(),
            res.records() == self.records(),
            res.move_statuses() == self.move_statuses().push(err),
    {
        proof {
            use_type_invariant(&self);
        }
        TableRead {
            database: self.database,
            table: self.table,
            step: ReadStep::Walk(CursorStep::moved(err)),
            columns: self.columns,
            rows: self.rows,
            moves: Ghost(self.moves@.push(err)),
        }
    }

    /// A record was read: one answer for each column.
    pub fn row(self, cells: &Vec<Retrieved>) -> (res: TableRead<'a>)
        requires
            self.next() == ReadStep::Walk(CursorStep::Read),
            answers_all(answer_views(cells@), self.column_list()),
        ensures
            res.next() == ReadStep::Walk(CursorStep::Move(MOVE_NEXT)),
            res.names() == self.names(),
            res.table_name() == self.table_name(),
            res.column_list() == self.column_list(),
            res.records() == self.records().push(
                record(self.names(), self.column_list(), answer_views(cells@)),
            ),
            res.move_statuses() == self.move_statuses(),
    {
        proof {
            use_type_invariant(&self);
        }
        let row = read_record(self.database, &self.columns, cells);
        let ghost before = self.rows@;
        let mut rows = self.rows;
        rows.push(row);
        proof {
            assert(value_views(row@).len() == row@.len());
            assert(row_views(rows@) =~= row_views(before).push(value_views(row@)));
        }
        TableRead {
            database: self.database,
            table: self.table,
            step: ReadStep::Walk(CursorStep::read()),
            columns: self.columns,
            rows,
            moves: self.moves,
        }
    }

    /// The table was closed.
    pub fn closed(self) -> (res: TableRead<'a>)
        requires
            self.next() == ReadStep::Walk(CursorStep::Close),
        ensures
            res.next() == ReadStep::Done,
            res.names() == self.names(),
            res.table_name() == self.table_name(),
            res.column_list() == self.column_list(),
            res.records() == self.records(),
            res.move_statuses() == self.move_statuses(),
    {
        proof {
            use_type_invariant(&self);
            walk_reads_every_record(self.moves@, self.rows@.len());
        }
        TableRead {
            database: self.database,
            table: self.table,
            step: ReadStep::Done,
            columns: self.columns,
            rows: self.rows,
            moves: self.moves,
        }
    }

    /// The names of the columns, and the records with a value for each column; in the end, all
    /// records of the table.
    pub fn finish(self) -> (res: (Vec<String>, Vec<Vec<ColumnValue>>))
        ensures
            texts(res.0@) == self.column_list().map_values(|c: ColumnInfoView| c.name),
            row_views(res.1@) == self.records(),
            forall|i: int| 0 <= i < res.1@.len() ==> (#[trigger] res.1@[i])@.len() == res.0@.len(),
            self.next() == ReadStep::Done ==> res.1@.len() == records_before_end(
                self.move_statuses(),
            ),
    {
        proof {
            use_type_invariant(&self);
        }
        let ghost all = self.column_list().map_values(|c: ColumnInfoView| c.name);
        let mut names: Vec<String> = Vec::new();
        let mut i: usize = 0;
        while i < self.columns.len()
            invariant
                0 <= i <= self.columns@.len(),
                names@.len() == i,
                all == self.column_list().map_values(|c: ColumnInfoView| c.name),
                texts(names@) == all.take(i as int),
            decreases self.columns@.len() - i,
        {
            let ghost before = names@;
            names.push(self.columns[i].name.clone());
            proof {
                assert(texts(names@) =~= texts(before).push(names@.last()@));
                assert(all.take(i + 1) =~= all.take(i as int).push(all[i as int]));
            }
            i = i + 1;
        }
        proof {
            assert(all.take(i as int) =~= all);
        }
        (names, self.rows)
    }
}

/// A record has a value for each column, and each value comes from its own cell: outside the
/// columns of identifiers it is what the bytes of that cell say by the type of that column.
pub proof fn values_come_from_their_own_cells(
    names: Map<u32, Seq<char>>,
    columns: Seq<ColumnInfoView>,
    cells: Seq<RetrievedView>,
    i: int,
)
    requires
        0 <= i < columns.len(),
    ensures
        record(names, columns, cells).len() == columns.len(),
        columns[i].name != "AppId"@ && columns[i].name != "UserId"@ ==> fits_bytes(
            cells[i],
            columns[i].col_type,
            record(names, columns, cells)[i],
        ),
        (columns[i].name == "AppId"@ || columns[i].name == "UserId"@) ==> exists|own|
            #![trigger fits_bytes(cells[i], columns[i].col_type, own)]
            fits_bytes(cells[i], columns[i].col_type, own) && record(names, columns, cells)[i]
                == resolved(names, columns[i].name, own),
{
    let own = cell_value(cells[i], columns[i].col_type);
    cells_hold_their_bytes(cells[i], columns[i].col_type);
    identifiers_become_names(names, columns[i].name, own, 0);
    assert(fits_bytes(cells[i], columns[i].col_type, own));
}

/// A value depends on its own column and cell alone: records that agree there hold the same.
pub proof fn values_ignore_other_cells(
    names: Map<u32, Seq<char>>,
    columns: Seq<ColumnInfoView>,
    cells: Seq<RetrievedView>,
    other_columns: Seq<ColumnInfoView>,
    other_cells: Seq<RetrievedView>,
    i: int,
    j: int,
)
    requires
        0 <= i < columns.len(),
        0 <= j < other_columns.len(),
        columns[i].name == other_columns[j].name,
        columns[i].col_type == other_columns[j].col_type,
        cells[i] == other_cells[j],
    ensures
        record(names, columns, cells)[i] == record(names, other_columns, other_cells)[j],
{
}

/// The call that opens a table is named with the name of the table.
pub proof fn open_call_names_the_table(table: Seq<char>)
    ensures
        open_table_op(table).len() == table.len() + 15,
        open_table_op(table).subrange(14, 14int + table.len()) == table,
{
    reveal_strlit("JetOpenTableW(");
    reveal_strlit(")");
    assert(open_table_op(table).subrange(14, 14int + table.len()) =~= table);
}

/// Answers, values and records are seen one by one, in their order.
pub proof fn records_are_seen_one_by_one(
    cells: Seq<Retrieved>,
    columns: Seq<ColumnInfo>,
    rows: Seq<Vec<ColumnValue>>,
    i: int,
    j: int,
)
    ensures
        answer_views(cells).len() == cells.len(),
        column_views(columns).len() == columns.len(),
        row_views(rows).len() == rows.len(),
        0 <= i < cells.len() ==> answer_views(cells)[i] == cells[i]@,
        0 <= i < columns.len() ==> column_views(columns)[i] == columns[i]@,
        0 <= i < rows.len() ==> row_views(rows)[i].len() == rows[i]@.len(),
        0 <= i < rows.len() && 0 <= j < rows[i]@.len() ==> row_views(rows)[i][j] == rows[i]@[j]@,
{
}

} // verus!
