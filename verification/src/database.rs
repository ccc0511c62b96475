//! The opened database: the names of identifiers, how they are loaded, and how they stand in
//! for identifiers in records.

use std::collections::HashMap;

use vstd::prelude::*;
use vstd::string::*;
use vstd::utf8::*;

use crate::blob::{
    binary_sid_to_string, blob_text, bytes_to_string, has_sid_form, is_binary_sid, sid_text,
    utf16_blob_reads_back,
};
use crate::bytes::numbers_hold_all_bytes;
use crate::column::{
    id_of, identifiers_are_congruent, integer_of, ColumnInfo, ColumnInfoView, ColumnValue,
    ColumnValueView, Retrieved, RetrievedView,
};
use crate::jet::{
    column_views, is_number_of, is_walk, records_before_end, walk_reads_every_record, CursorStep, MOVE_FIRST,
    MOVE_NEXT, READ_ONLY,
};
use crate::srum::ID_MAP_TABLE;
use crate::text::same_text;
use crate::utf16::{encoded, to_wide, units_at, wide};

verus! {

/// A record of energy use. The timestamp is kept as the bits of a date in days.
#[derive(Debug, Clone)]
pub struct EnergyRecord {
    pub timestamp: u64,
    pub app_id: String,
    pub user_id: String,
    pub columns: HashMap<String, ColumnValue>,
}

/// An opened database: the names that its identifiers stand for.
pub struct SrumDatabase {
    id_map: HashMap<u32, String>,
}

/// The identifier type of security identifiers.
pub const SID_TYPE: u32 = 3;

/// The name in a blob: that of a security identifier where the type or the form says so, a
/// string otherwise.
pub open spec fn blob_name(id_type: u32, blob: Option<Seq<u8>>) -> Seq<char> {
    match blob {
        Some(data) => if id_type == SID_TYPE || has_sid_form(data) {
            sid_text(data)
        } else {
            blob_text(data)
        },
        None => Seq::empty(),
    }
}

/// The cells of one record of the table of names; the type column may be missing.
#[verifier::ext_equal]
pub struct IdRow {
    pub index: RetrievedView,
    pub blob: RetrievedView,
    pub id_type: Option<RetrievedView>,
}

/// The identifier of a record; one that could not be read counts as zero.
pub open spec fn row_id(row: IdRow) -> u32 {
    match row.index.number() {
        Some(v) => v,
        None => 0,
    }
}

/// The type of a record's identifier; one that could not be read counts as zero.
pub open spec fn row_type(row: IdRow) -> u32 {
    match row.id_type {
        Some(cell) => match cell.number() {
            Some(v) => v,
            None => 0,
        },
        None => 0,
    }
}

/// The name in a record.
pub open spec fn row_name(row: IdRow) -> Seq<char> {
    blob_name(row_type(row), row.blob.bytes())
}

/// The names with those of one more record: a later record replaces an earlier one, and an
/// empty name is passed over.
pub open spec fn with_row(names: Map<u32, Seq<char>>, row: IdRow) -> Map<u32, Seq<char>> {
    if row_name(row).len() > 0 {
        names.insert(row_id(row), row_name(row))
    } else {
        names
    }
}

/// The names in a sequence of records.
pub open spec fn names_in(rows: Seq<IdRow>) -> Map<u32, Seq<char>>
    decreases rows.len(),
{
    if rows.len() == 0 {
        Map::empty()
    } else {
        with_row(names_in(rows.drop_last()), rows.last())
    }
}

/// Whether a column holds identifiers that have names.
pub open spec fn is_id_column(column: Seq<char>) -> bool {
    column == "AppId"@ || column == "UserId"@
}

/// A value with its identifier replaced by the name, where the column holds identifiers and
/// this one has a name.
pub open spec fn resolved(
    names: Map<u32, Seq<char>>,
    column: Seq<char>,
    value: ColumnValueView,
) -> ColumnValueView {
    match id_of(value) {
        Some(id) => if is_id_column(column) && names.contains_key(id) {
            ColumnValueView::Text(names[id])
        } else {
            value
        },
        None => value,
    }
}

/// Only integers in identifier columns are replaced, and only by a name that there is; two
/// values with the same identifier are replaced by the same name.
pub proof fn only_ids_are_resolved(
    names: Map<u32, Seq<char>>,
    column: Seq<char>,
    a: ColumnValueView,
    b: ColumnValueView,
)
    ensures
        resolved(names, column, a) != a ==> is_id_column(column) && (id_of(a) matches Some(id)
            && names.contains_key(id)),
        is_id_column(column) && id_of(a) == id_of(b) && (id_of(a) matches Some(id)
            && names.contains_key(id)) ==> resolved(names, column, a) == resolved(names, column, b),
{
}

/// Reads the name in a blob.
pub fn name_of_blob(id_type: u32, blob: &Option<Vec<u8>>) -> (res: String)
    ensures
        res@ == blob_name(
            id_type,
            match blob {
                Some(data) => Some(data@),
                None => None,
            },
        ),
        blob matches Some(data) ==> {
            &&& (id_type == 3 || has_sid_form(data@)) ==> res@ == sid_text(data@)
            &&& id_type != 3 && !has_sid_form(data@) ==> (forall|s: Seq<char>|
                !s.contains('\0') && data@ == #[trigger] encode_utf8(s) ==> res@ == s)
            &&& id_type != 3 && !has_sid_form(data@) ==> (forall|s: Seq<char>| #[trigger]
                is_utf16_of(data@, s) ==> res@ == s)
        },
        blob is None ==> res@.len() == 0,
{
    proof {
        if let Some(data) = blob {
            assert forall|s: Seq<char>| #[trigger] is_utf16_of(data@, s) implies blob_text(data@)
                == s by {
                utf16_blob_reads_back(data@, s);
            }
        }
    }
    match blob {
        Some(data) => if id_type == SID_TYPE || is_binary_sid(data.as_slice()) {
            binary_sid_to_string(data.as_slice())
        } else {
            bytes_to_string(data.as_slice())
        },
        None => String::new(),
    }
}

impl SrumDatabase {
    /// The names of the identifiers.
    pub closed spec fn names(&self) -> Map<u32, Seq<char>> {
        self.id_map@.map_values(|s: String| s@)
    }

    /// No identifier has an empty name.
    #[verifier::type_invariant]
    closed spec fn no_empty_name(&self) -> bool {
        forall|id: u32| #[trigger]
            self.names().contains_key(id) ==> self.names()[id].len() > 0
    }

    /// A database without names.
    pub fn new() -> (res: SrumDatabase)
        ensures
            res.names() == Map::<u32, Seq<char>>::empty(),
    {
        let res = SrumDatabase { id_map: HashMap::new() };
        assert(res.names() =~= Map::<u32, Seq<char>>::empty());
        res
    }

    /// How many identifiers have a name.
    pub fn name_count(&self) -> (res: usize)
        ensures
            res == self.names().len(),
    {
        assert(self.names().dom() =~= self.id_map@.dom());
        self.id_map.len()
    }

    /// The name of an identifier, if it has one; a name is never empty.
    pub fn resolve_id(&self, id: u32) -> (res: Option<&str>)
        ensures
            match res {
                Some(name) => self.names().contains_key(id) && name@ == self.names()[id]
                    && name@.len() > 0,
                None => !self.names().contains_key(id),
            },
    {
        proof {
            use_type_invariant(self);
        }
        match self.id_map.get(&id) {
            Some(name) => Some(name.as_str()),
            None => None,
        }
    }

    /// The value of a cell, with an identifier of an application or a user replaced by its
    /// name.
    pub fn resolve_value(&self, column: &str, value: ColumnValue) -> (res: ColumnValue)
        ensures
            res@ == resolved(self.names(), column@, value@),
    {
        if same_text(column, "AppId") || same_text(column, "UserId") {
            if let Some(id) = value.numeric_id() {
                if let Some(name) = self.resolve_id(id) {
                    return ColumnValue::Text(name.to_owned());
                }
            }
        }
        value
    }

    /// The database with the name in one more record.
    pub fn with_id(
        self,
        index: &Retrieved,
        blob: &Retrieved,
        id_type: &Option<Retrieved>,
    ) -> (res: SrumDatabase)
        requires
            index@.buf.len() >= 4,
            blob@.fits(),
            id_type matches Some(cell) ==> cell@.buf.len() >= 4,
        ensures
            res.names() == with_row(self.names(), id_row(index, blob, id_type)),
    {
        proof {
            use_type_invariant(&self);
        }
        let id: u32 = match index.retrieve_u32() {
            Some(v) => v,
            None => 0,
        };
        let kind: u32 = match id_type {
            Some(cell) => match cell.retrieve_u32() {
                Some(v) => v,
                None => 0,
            },
            None => 0,
        };
        let name = name_of_blob(kind, &blob.retrieve_bytes());
        let ghost before = self.names();
        let ghost text = name@;
        let mut id_map = self.id_map;
        if !name.as_str().is_empty() {
            id_map.insert(id, name);
            assert(id_map@.map_values(|s: String| s@) =~= before.insert(id, text));
        }
        SrumDatabase { id_map }
    }
}

/// The record that three answers make up.
pub open spec fn id_row(index: &Retrieved, blob: &Retrieved, id_type: &Option<Retrieved>) -> IdRow {
    IdRow {
        index: index@,
        blob: blob@,
        id_type: match id_type {
            Some(cell) => Some(cell@),
            None => None,
        },
    }
}

/// Whether a record gives an identifier a name.
pub open spec fn gives_name(row: IdRow, id: u32) -> bool {
    row_id(row) == id && row_name(row).len() > 0
}

proof fn named_if_given(rows: Seq<IdRow>, id: u32, i: int)
    requires
        0 <= i < rows.len(),
        gives_name(rows[i], id),
    ensures
        names_in(rows).contains_key(id),
    decreases rows.len(),
{
    if i < rows.len() - 1 {
        named_if_given(rows.drop_last(), id, i);
    }
}

proof fn given_if_named(rows: Seq<IdRow>, id: u32) -> (i: int)
    requires
        names_in(rows).contains_key(id),
    ensures
        0 <= i < rows.len(),
        gives_name(rows[i], id),
    decreases rows.len(),
{
    if gives_name(rows.last(), id) {
        rows.len() - 1
    } else {
        given_if_named(rows.drop_last(), id)
    }
}

proof fn last_given(rows: Seq<IdRow>, id: u32, i: int)
    requires
        0 <= i < rows.len(),
        gives_name(rows[i], id),
        forall|j: int| i < j < rows.len() ==> !gives_name(#[trigger] rows[j], id),
    ensures
        names_in(rows)[id] == row_name(rows[i]),
    decreases rows.len(),
{
    let n = rows.len() - 1;
    if i < n {
        let init = rows.drop_last();
        assert(!gives_name(rows[n], id));
        assert forall|j: int| i < j < init.len() implies !gives_name(#[trigger] init[j], id) by {
            assert(init[j] == rows[j]);
        }
        last_given(init, id, i);
        named_if_given(init, id, i);
    }
}

/// An identifier has a name if and only if a record gives it one, and its name is that of the
/// last such record.
pub proof fn last_name_wins(rows: Seq<IdRow>, id: u32)
    ensures
        names_in(rows).contains_key(id) <==> exists|i: int|
            0 <= i < rows.len() && gives_name(#[trigger] rows[i], id),
        forall|i: int|
            0 <= i < rows.len() && gives_name(#[trigger] rows[i], id) && (forall|j: int|
                i < j < rows.len() ==> !gives_name(#[trigger] rows[j], id)) ==> names_in(rows)[id]
                == row_name(rows[i]),
{
    if names_in(rows).contains_key(id) {
        let i = given_if_named(rows, id);
        assert(gives_name(rows[i], id));
    }
    assert forall|i: int| 0 <= i < rows.len() && gives_name(#[trigger] rows[i], id) implies
        names_in(rows).contains_key(id) by {
        named_if_given(rows, id, i);
    }
    assert forall|i: int|
        0 <= i < rows.len() && gives_name(#[trigger] rows[i], id) && (forall|j: int|
            i < j < rows.len() ==> !gives_name(#[trigger] rows[j], id)) implies names_in(rows)[id]
        == row_name(rows[i]) by {
        last_given(rows, id, i);
    }
}

/// The identifier of the first column with a given name.
pub open spec fn first_named(columns: Seq<ColumnInfoView>, name: Seq<char>) -> Option<u32>
    decreases columns.len(),
{
    if columns.len() == 0 {
        None
    } else if columns[0].name == name {
        Some(columns[0].id)
    } else {
        first_named(columns.drop_first(), name)
    }
}

/// Finds the first column with a given name.
pub fn find_column(columns: &Vec<ColumnInfo>, name: &str) -> (res: Option<u32>)
    ensures
        res == first_named(column_views(columns@), name@),
{
    let ghost all = column_views(columns@);
    let mut i: usize = 0;
    assert(all.skip(0) =~= all);
    while i < columns.len()
        invariant
            0 <= i <= columns@.len(),
            all == column_views(columns@),
            first_named(all, name@) == first_named(all.skip(i as int), name@),
        decreases columns@.len() - i,
    {
        if same_text(columns[i].name.as_str(), name) {
            return Some(columns[i].id);
        }
        assert(all.skip(i as int).drop_first() =~= all.skip(i + 1));
        i = i + 1;
    }
    None
}

/// The columns of the table of names.
#[derive(Debug, Clone, Copy, PartialEq, Eq, Structural)]
pub struct IdColumns {
    pub index: u32,
    pub blob: u32,
    pub id_type: Option<u32>,
}

/// The columns of the table of names, if those that are needed are there.
pub open spec fn id_columns(columns: Seq<ColumnInfoView>) -> Option<IdColumns> {
    match (first_named(columns, "IdIndex"@), first_named(columns, "IdBlob"@)) {
        (Some(index), Some(blob)) => Some(
            IdColumns { index, blob, id_type: first_named(columns, "IdType"@) },
        ),
        _ => None,
    }
}

/// Finds the columns of the table of names.
pub fn find_id_columns(columns: &Vec<ColumnInfo>) -> (res: Option<IdColumns>)
    ensures
        res == id_columns(column_views(columns@)),
{
    let id_type = find_column(columns, "IdType");
    match find_column(columns, "IdIndex") {
        Some(index) => match find_column(columns, "IdBlob") {
            Some(blob) => Some(IdColumns { index, blob, id_type }),
            None => None,
        },
        None => None,
    }
}

/// What to do next when the names are loaded.
#[derive(Debug, Clone, Copy, PartialEq, Eq, Structural)]
pub enum LoadStep {
    /// Open the table of names, with this flag.
    OpenTable(u32),
    /// List its columns.
    ListColumns,
    /// Walk through it, reading these columns.
    Walk(CursorStep, IdColumns),
    /// Close it without reading: a column is missing.
    CloseUnread,
    /// It could not be opened, with this status; there are no names.
    Unavailable(i32),
    /// All names are loaded.
    Done,
}

/// A loading of the names, in progress.
pub struct IdMapLoad {
    step: LoadStep,
    database: SrumDatabase,
    rows: Ghost<Seq<IdRow>>,
    moves: Ghost<Seq<i32>>,
}

impl SrumDatabase {
    /// Starts to load the names of the identifiers.
    pub fn load_id_map() -> (res: IdMapLoad)
        ensures
            res.next() == LoadStep::OpenTable(READ_ONLY),
            res.read_rows().len() == 0,
            res.move_statuses().len() == 0,
    {
        IdMapLoad {
            step: LoadStep::OpenTable(READ_ONLY),
            database: SrumDatabase::new(),
            rows: Ghost(Seq::empty()),
            moves: Ghost(Seq::empty()),
        }
    }
}

impl IdMapLoad {
    /// What to do next.
    pub closed spec fn next(&self) -> LoadStep {
        self.step
    }

    /// The records that were read so far.
    pub closed spec fn read_rows(&self) -> Seq<IdRow> {
        self.rows@
    }

    /// The statuses of the moves so far.
    pub closed spec fn move_statuses(&self) -> Seq<i32> {
        self.moves@
    }

    #[verifier::type_invariant]
    closed spec fn names_what_was_read(&self) -> bool {
        &&& self.database.names() == names_in(self.rows@)
        &&& match self.step {
            LoadStep::Walk(cursor, _) => is_walk(cursor, self.moves@, self.rows@.len()),
            LoadStep::Done => self.rows@.len() == records_before_end(self.moves@),
            _ => self.rows@.len() == 0 && self.moves@.len() == 0,
        }
    }

    /// Tells what to do next.
    pub fn step(&self) -> (res: LoadStep)
        ensures
            res == self.next(),
            res matches LoadStep::Walk(cursor, _) ==> is_walk(
                cursor,
                self.move_statuses(),
                self.read_rows().len(),
            ),
    {
        proof {
            use_type_invariant(self);
        }
        self.step
    }

    /// The name of the table of names as the engine takes it.
    pub fn wide_name(&self) -> (res: Vec<u16>)
        ensures
            res@ == wide(ID_MAP_TABLE@),
    {
        to_wide(ID_MAP_TABLE)
    }

    /// Opening the table ended with this status.
    pub fn opened(self, err: i32) -> (res: IdMapLoad)
        requires
            self.next() == LoadStep::OpenTable(READ_ONLY),
        ensures
            res.next() == if err < 0 {
                LoadStep::Unavailable(err)
            } else {
                LoadStep::ListColumns
            },
            res.read_rows() == self.read_rows(),
            res.move_statuses() == self.move_statuses(),
    {
        proof {
            use_type_invariant(&self);
        }
        let step = if err < 0 {
            LoadStep::Unavailable(err)
        } else {
            LoadStep::ListColumns
        };
        IdMapLoad { step, database: self.database, rows: self.rows, moves: self.moves }
    }

    /// The table has these columns.
    pub fn listed(self, columns: &Vec<ColumnInfo>) -> (res: IdMapLoad)
        requires
            self.next() == LoadStep::ListColumns,
        ensures
            res.next() == match id_columns(column_views(columns@)) {
                Some(ids) => LoadStep::Walk(CursorStep::Move(MOVE_FIRST), ids),
                None => LoadStep::CloseUnread,
            },
            res.read_rows() == self.read_rows(),
            res.move_statuses() == self.move_statuses(),
    {
        proof {
            use_type_invariant(&self);
        }
        let step = match find_id_columns(columns) {
            Some(ids) => LoadStep::Walk(CursorStep::start(), ids),
            None => LoadStep::CloseUnread,
        };
        IdMapLoad { step, database: self.database, rows: self.rows, moves: self.moves }
    }

    /// A move ended with this status.
    pub fn moved(self, err: i32) -> (res: IdMapLoad)
        requires
            self.next() matches LoadStep::Walk(CursorStep::Move(_), _),
        ensures
            self.next() matches LoadStep::Walk(_, ids) && res.next() == LoadStep::Walk(
                CursorStep::after_move(err),
                ids,
            ),
            res.read_rows() == self.read_rows(),
            res.move_statuses() == self.move_statuses().push(err),
    {
        proof {
            use_type_invariant(&self);
        }
        let step = match self.step {
            LoadStep::Walk(_, ids) => LoadStep::Walk(CursorStep::moved(err), ids),
            other => other,
        };
        IdMapLoad {
            step,
            database: self.database,
            rows: self.rows,
            moves: Ghost(self.moves@.push(err)),
        }
    }

    /// A record was read; its type cell is there if the table has a type column.
    pub fn row(self, index: &Retrieved, blob: &Retrieved, id_type: &Option<Retrieved>) -> (res:
        IdMapLoad)
        requires
            self.next() matches LoadStep::Walk(CursorStep::Read, ids) && (ids.id_type is Some
                <==> id_type is Some),
            index@.buf.len() >= 4,
            blob@.fits(),
            id_type matches Some(cell) ==> cell@.buf.len() >= 4,
        ensures
            self.next() matches LoadStep::Walk(_, ids) && res.next() == LoadStep::Walk(
                CursorStep::Move(MOVE_NEXT),
                ids,
            ),
            res.read_rows() == self.read_rows().push(id_row(index, blob, id_type)),
            res.move_statuses() == self.move_statuses(),
    {
        proof {
            use_type_invariant(&self);
        }
        let ghost read = self.rows@;
        let ghost rows = read.push(id_row(index, blob, id_type));
        proof {
            assert(rows.drop_last() =~= read);
        }
        let step = match self.step {
            LoadStep::Walk(_, ids) => LoadStep::Walk(CursorStep::read(), ids),
            other => other,
        };
        IdMapLoad {
            step,
            database: self.database.with_id(index, blob, id_type),
            rows: Ghost(rows),
            moves: self.moves,
        }
    }

    /// The table was closed.
    pub fn closed(self) -> (res: IdMapLoad)
        requires
            self.next() matches LoadStep::Walk(CursorStep::Close, _) || self.next()
                == LoadStep::CloseUnread,
        ensures
            res.next() == LoadStep::Done,
            res.read_rows() == self.read_rows(),
            res.move_statuses() == self.move_statuses(),
    {
        proof {
            use_type_invariant(&self);
            if self.step != LoadStep::CloseUnread {
                walk_reads_every_record(self.moves@, self.rows@.len());
            }
        }
        IdMapLoad {
            step: LoadStep::Done,
            database: self.database,
            rows: self.rows,
            moves: self.moves,
        }
    }

    /// The database with the names that were loaded; in the end, those of every record.
    pub fn into_database(self) -> (res: SrumDatabase)
        ensures
            res.names() == names_in(self.read_rows()),
            self.next() == LoadStep::Done ==> self.read_rows().len() == records_before_end(
                self.move_statuses(),
            ),
    {
        proof {
            use_type_invariant(&self);
        }
        self.database
    }
}

/// Whether bytes are a text of Latin-1 characters in UTF-16LE that holds a visible ASCII
/// character and does not end in NUL.
pub open spec fn is_utf16_of(data: Seq<u8>, s: Seq<char>) -> bool {
    &&& data.len() == 2 * encoded(s).len()
    &&& units_at(data, 0, encoded(s).len()) == encoded(s)
    &&& forall|i: int| 0 <= i < s.len() ==> #[trigger] s[i] < '\u{100}'
    &&& exists|i: int| 0 <= i < s.len() && '\u{20}' < #[trigger] s[i] < '\u{7f}'
    &&& s.last() != '\0'
}

/// Only identifiers of type 3 and blobs with the form of a security identifier are named as one.
/// Every other blob goes by the text that it stores, whatever the type.
pub proof fn blobs_store_their_names(id_type: u32, data: Seq<u8>, s: Seq<char>)
    ensures
        id_type == 3 || has_sid_form(data) ==> blob_name(id_type, Some(data)) == sid_text(data),
        id_type != 3 && !has_sid_form(data) ==> blob_name(id_type, Some(data)) == blob_text(data),
        id_type != 3 && !has_sid_form(data) && is_utf16_of(data, s) ==> blob_name(
            id_type,
            Some(data),
        ) == s,
        blob_name(id_type, None).len() == 0,
{
    if is_utf16_of(data, s) {
        utf16_blob_reads_back(data, s);
    }
}

/// Outside type 3, the type of an identifier makes no difference to its name.
pub proof fn other_types_agree(a: u32, b: u32, blob: Option<Seq<u8>>)
    requires
        a != 3,
        b != 3,
    ensures
        blob_name(a, blob) == blob_name(b, blob),
{
}

/// A record gives a name by its own cells: the identifier and the type are the numbers in
/// theirs, and the name is that of the bytes in the blob cell.
pub proof fn records_name_by_their_cells(row: IdRow)
    ensures
        is_number_of(row_id(row) as int, row.index),
        row.id_type matches Some(cell) ==> is_number_of(row_type(row) as int, cell),
        row.id_type is None ==> row_type(row) == 0,
        row_name(row) == if row.blob.err >= 0 && row.blob.actual > 0 {
            blob_name(row_type(row), Some(row.blob.buf.take(row.blob.actual as int)))
        } else {
            Seq::empty()
        },
{
    numbers_hold_all_bytes(row.index.buf, 0);
    if let Some(cell) = row.id_type {
        numbers_hold_all_bytes(cell.buf, 0);
    }
}

/// One more record changes the name of its own identifier at most.
pub proof fn records_leave_other_names(names: Map<u32, Seq<char>>, row: IdRow, id: u32)
    requires
        id != row_id(row) || row_name(row).len() == 0,
    ensures
        with_row(names, row).contains_key(id) == names.contains_key(id),
        names.contains_key(id) ==> with_row(names, row)[id] == names[id],
{
}

/// An integer in the column `AppId` or `UserId` becomes the name of the identifier to which it
/// is congruent, where that has a name. Every other value stays.
pub proof fn identifiers_become_names(
    names: Map<u32, Seq<char>>,
    column: Seq<char>,
    value: ColumnValueView,
    id: u32,
)
    ensures
        (column == "AppId"@ || column == "UserId"@) && names.contains_key(id) && (integer_of(
            value,
        ) matches Some(n) && (n - id) % 0x1_0000_0000 == 0) ==> resolved(names, column, value)
            == ColumnValueView::Text(names[id]),
        column != "AppId"@ && column != "UserId"@ ==> resolved(names, column, value) == value,
        integer_of(value) is None ==> resolved(names, column, value) == value,
        !names.contains_key(id) && (integer_of(value) matches Some(n) && (n - id) % 0x1_0000_0000
            == 0) ==> resolved(names, column, value) == value,
{
    identifiers_are_congruent(value);
    if let Some(n) = integer_of(value) {
        if (n - id) % 0x1_0000_0000 == 0 {
            same_residue(n, id, id_of(value)->0);
        }
    }
}

proof fn same_residue(n: int, a: u32, b: u32)
    requires
        (n - a) % 0x1_0000_0000 == 0,
        (n - b) % 0x1_0000_0000 == 0,
    ensures
        a == b,
{
}

/// The column that is found is the first one with the name; none is found only if no column has
/// it.
pub proof fn first_column_is_found(columns: Seq<ColumnInfoView>, name: Seq<char>, i: int)
    requires
        0 <= i <= columns.len(),
        forall|j: int| 0 <= j < i ==> (#[trigger] columns[j]).name != name,
    ensures
        i == columns.len() ==> first_named(columns, name) is None,
        i < columns.len() && columns[i].name == name ==> first_named(columns, name) == Some(
            columns[i].id,
        ),
    decreases columns.len(),
{
    if columns.len() > 0 && i > 0 {
        let tail = columns.drop_first();
        assert(columns[0].name != name);
        assert forall|j: int| 0 <= j < i - 1 implies (#[trigger] tail[j]).name != name by {
            assert(tail[j] == columns[j + 1]);
        }
        first_column_is_found(tail, name, i - 1);
    }
}

/// The table of names is read by the columns `IdIndex` and `IdBlob`, and by `IdType` if it is
/// there.
pub proof fn id_columns_by_name(columns: Seq<ColumnInfoView>)
    ensures
        id_columns(columns) is Some <==> first_named(columns, "IdIndex"@) is Some && first_named(
            columns,
            "IdBlob"@,
        ) is Some,
        id_columns(columns) matches Some(ids) ==> {
            &&& first_named(columns, "IdIndex"@) == Some(ids.index)
            &&& first_named(columns, "IdBlob"@) == Some(ids.blob)
            &&& first_named(columns, "IdType"@) == ids.id_type
        },
{
}

/// A record is made up of its own three answers.
pub proof fn answers_make_up_the_record(
    index: &Retrieved,
    blob: &Retrieved,
    id_type: &Option<Retrieved>,
)
    ensures
        id_row(index, blob, id_type).index == index@,
        id_row(index, blob, id_type).blob == blob@,
        id_row(index, blob, id_type).id_type is Some <==> id_type is Some,
        id_type matches Some(cell) ==> id_row(index, blob, id_type).id_type == Some(cell@),
{
}

} // verus!
