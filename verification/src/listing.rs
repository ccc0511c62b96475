//! Listing the tables of a database with the number of their records.

use vstd::prelude::*;
use vstd::string::*;

use crate::blob::blob_text;
use crate::column::{Retrieved, RetrievedView};
use crate::database::SrumDatabase;
use crate::jet::{
    after_query, is_walk, list_error_text, records_before_end, walk_reads_every_record, CursorStep,
    ScanStep, MOVE_FIRST, MOVE_NEXT, READ_ONLY,
};
use crate::srum::{
    friendly_name, APPLICATION_USAGE_TABLE, CONNECTIVITY_USAGE_TABLE, ENERGY_ESTIMATOR_TABLE,
    ENERGY_USAGE_LT_TABLE, ENERGY_USAGE_TABLE, NETWORK_USAGE_TABLE, TAGGED_ENERGY_TABLE,
};
use crate::text::{same_text, signed_decimal_text, texts};
use crate::utf16::{to_wide, wide};

verus! {

/// The tables that are known by name, in the order in which they are listed.
pub open spec fn known_tables() -> Seq<Seq<char>> {
    seq![
        ENERGY_USAGE_TABLE@,
        ENERGY_USAGE_LT_TABLE@,
        ENERGY_ESTIMATOR_TABLE@,
        TAGGED_ENERGY_TABLE@,
        APPLICATION_USAGE_TABLE@,
        NETWORK_USAGE_TABLE@,
        CONNECTIVITY_USAGE_TABLE@,
    ]
}

/// No table is among the known ones twice.
pub proof fn known_tables_distinct(i: int, j: int)
    requires
        0 <= i < known_tables().len(),
        0 <= j < known_tables().len(),
        known_tables()[i] == known_tables()[j],
    ensures
        i == j,
{
    reveal_strlit("{FEE4E14F-02A9-4550-B5CE-5FA2DA202E37}");
    reveal_strlit("{FEE4E14F-02A9-4550-B5CE-5FA2DA202E37}LT");
    reveal_strlit("{DA73FB89-2BEA-4DDC-86B8-6E048C6DA477}");
    reveal_strlit("{B6D82AF1-F780-4E17-8077-6CB9AD8A6FC4}");
    reveal_strlit("{D10CA2FE-6FCF-4F6D-848E-B2E99266FA89}");
    reveal_strlit("{973F5D5C-1D90-4944-BE8E-24B94231A174}");
    reveal_strlit("{DD6636C4-8929-4683-974E-22C046A43763}");
    let known = known_tables();
    assert(known[0].len() == 38 && known[0][1] == 'F');
    assert(known[1].len() == 40);
    assert(known[2].len() == 38 && known[2][1] == 'D' && known[2][2] == 'A');
    assert(known[3].len() == 38 && known[3][1] == 'B');
    assert(known[4].len() == 38 && known[4][1] == 'D' && known[4][2] == '1');
    assert(known[5].len() == 38 && known[5][1] == '9');
    assert(known[6].len() == 38 && known[6][1] == 'D' && known[6][2] == 'D');
}

/// Every known table goes by another name than its own, and no two by the same.
pub proof fn known_tables_have_names(i: int, j: int)
    requires
        0 <= i < known_tables().len(),
        0 <= j < known_tables().len(),
    ensures
        friendly_name(known_tables()[i]) != known_tables()[i],
        friendly_name(known_tables()[i]) == friendly_name(known_tables()[j]) ==> i == j,
{
    reveal_strlit("{FEE4E14F-02A9-4550-B5CE-5FA2DA202E37}");
    reveal_strlit("{FEE4E14F-02A9-4550-B5CE-5FA2DA202E37}LT");
    reveal_strlit("{DA73FB89-2BEA-4DDC-86B8-6E048C6DA477}");
    reveal_strlit("{B6D82AF1-F780-4E17-8077-6CB9AD8A6FC4}");
    reveal_strlit("{D10CA2FE-6FCF-4F6D-848E-B2E99266FA89}");
    reveal_strlit("{973F5D5C-1D90-4944-BE8E-24B94231A174}");
    reveal_strlit("{DD6636C4-8929-4683-974E-22C046A43763}");
    reveal_strlit("Energy Usage");
    reveal_strlit("Energy Usage (Long Term)");
    reveal_strlit("Energy Estimator Provider");
    reveal_strlit("Tagged Energy Provider");
    reveal_strlit("Application Resource Usage");
    reveal_strlit("Network Data Usage");
    reveal_strlit("Network Connectivity Usage");
    let known = known_tables();
    assert forall|x: int, y: int|
        0 <= x < known.len() && 0 <= y < known.len() && #[trigger] known[x] == #[trigger] known[y]
        implies x == y by {
        known_tables_distinct(x, y);
    }
    assert(known[0] == ENERGY_USAGE_TABLE@ && known[1] == ENERGY_USAGE_LT_TABLE@);
    assert(known[2] == ENERGY_ESTIMATOR_TABLE@ && known[3] == TAGGED_ENERGY_TABLE@);
    assert(known[4] == APPLICATION_USAGE_TABLE@ && known[5] == NETWORK_USAGE_TABLE@);
    assert(known[6] == CONNECTIVITY_USAGE_TABLE@);
    let a = friendly_name(known[i]);
    let b = friendly_name(known[j]);
    assert(a.len() < 38);
    if a == b {
        assert(a[0] == b[0]);
    }
}

/// How many tables are known.
pub const KNOWN_TABLES: usize = 7;

/// The name of a known table.
pub fn known_table(index: usize) -> (res: &'static str)
    requires
        index < KNOWN_TABLES,
    ensures
        res@ == known_tables()[index as int],
{
    match index {
        0 => ENERGY_USAGE_TABLE,
        1 => ENERGY_USAGE_LT_TABLE,
        2 => ENERGY_ESTIMATOR_TABLE,
        3 => TAGGED_ENERGY_TABLE,
        4 => APPLICATION_USAGE_TABLE,
        5 => NETWORK_USAGE_TABLE,
        _ => CONNECTIVITY_USAGE_TABLE,
    }
}

/// Tells whether a table is known.
pub fn is_known_table(name: &str) -> (res: bool)
    ensures
        res == known_tables().contains(name@),
{
    let mut i: usize = 0;
    while i < KNOWN_TABLES
        invariant
            0 <= i <= KNOWN_TABLES,
            forall|k: int| 0 <= k < i ==> known_tables()[k] != name@,
        decreases KNOWN_TABLES - i,
    {
        if same_text(known_table(i), name) {
            assert(known_tables()[i as int] == name@);
            return true;
        }
        i = i + 1;
    }
    false
}

/// The tables to try: the known ones in their order, then the others in the order given.
pub open spec fn with_known_first(names: Seq<Seq<char>>) -> Seq<Seq<char>> {
    known_tables() + names.filter(|name: Seq<char>| !known_tables().contains(name))
}

/// Puts the known tables in front of the others.
pub fn known_first(names: Vec<String>) -> (res: Vec<String>)
    ensures
        texts(res@) == with_known_first(texts(names@)),
{
    let ghost all = texts(names@);
    let ghost other = |name: Seq<char>| !known_tables().contains(name);
    let mut tables: Vec<String> = Vec::new();
    let mut i: usize = 0;
    while i < KNOWN_TABLES
        invariant
            0 <= i <= KNOWN_TABLES,
            texts(tables@) == known_tables().take(i as int),
        decreases KNOWN_TABLES - i,
    {
        let ghost before = tables@;
        tables.push(known_table(i).to_owned());
        proof {
            assert(texts(tables@) =~= texts(before).push(tables@.last()@));
            assert(known_tables().take(i + 1) =~= known_tables().take(i as int).push(
                known_tables()[i as int],
            ));
        }
        i = i + 1;
    }
    proof {
        reveal(Seq::filter);
        assert(known_tables().take(i as int) =~= known_tables());
        assert(all.take(0).filter(other) =~= Seq::empty());
        assert(texts(tables@) =~= known_tables() + all.take(0).filter(other));
    }
    for name in it: names
        invariant
            it.seq() == names@,
            all == texts(names@),
            other == (|name: Seq<char>| !known_tables().contains(name)),
            texts(tables@) == known_tables() + all.take(it.index() as int).filter(other),
    {
        let ghost before = tables@;
        let ghost kept = all.take(it.index() as int).filter(other);
        proof {
            reveal(Seq::filter);
            assert(all.take(it.index() + 1).drop_last() =~= all.take(it.index() as int));
            assert(all.take(it.index() + 1).last() == name@);
        }
        if !is_known_table(name.as_str()) {
            tables.push(name);
            proof {
                assert(texts(tables@) =~= texts(before).push(tables@.last()@));
                assert(known_tables() + kept.push(name@) =~= (known_tables() + kept).push(name@));
            }
        }
    }
    proof {
        assert(all.take(all.len() as int) =~= all);
    }
    tables
}

proof fn filter_keeps(names: Seq<Seq<char>>, keep: spec_fn(Seq<char>) -> bool, name: Seq<char>)
    ensures
        names.filter(keep).contains(name) <==> names.contains(name) && keep(name),
        names.no_duplicates() ==> names.filter(keep).no_duplicates(),
    decreases names.len(),
{
    reveal(Seq::filter);
    if names.len() > 0 {
        let init = names.drop_last();
        let kept = init.filter(keep);
        filter_keeps(init, keep, name);
        filter_keeps(init, keep, names.last());
        assert(names.contains(names.last()));
        if names.contains(name) && name != names.last() {
            let k = choose|k: int| 0 <= k < names.len() && names[k] == name;
            assert(init[k] == name);
        }
        if init.contains(name) {
            let k = choose|k: int| 0 <= k < init.len() && init[k] == name;
            assert(names[k] == name);
        }
        if keep(names.last()) {
            let all = kept.push(names.last());
            assert(names.filter(keep) == all);
            if kept.contains(name) {
                let k = choose|k: int| 0 <= k < kept.len() && kept[k] == name;
                assert(all[k] == name);
            }
            if all.contains(name) && name != names.last() {
                let k = choose|k: int| 0 <= k < all.len() && all[k] == name;
                assert(kept[k] == name);
            }
            assert(all.last() == names.last() && all.contains(names.last()));
            if names.no_duplicates() {
                assert(init.no_duplicates());
                assert(!init.contains(names.last()));
                assert(!kept.contains(names.last()));
                assert(all.no_duplicates());
            }
        } else if names.no_duplicates() {
            assert(init.no_duplicates());
        }
    }
}

/// The known tables are tried first; every other table that is given is tried too, and none
/// twice if none is given twice.
pub proof fn every_table_is_tried(names: Seq<Seq<char>>, name: Seq<char>)
    ensures
        with_known_first(names).take(known_tables().len() as int) == known_tables(),
        with_known_first(names).contains(name) <==> known_tables().contains(name)
            || names.contains(name),
        names.no_duplicates() ==> with_known_first(names).no_duplicates(),
{
    let other = |name: Seq<char>| !known_tables().contains(name);
    let known = known_tables();
    let others = names.filter(other);
    let all = with_known_first(names);
    assert(all == known + others);
    assert(all.take(known.len() as int) =~= known);
    filter_keeps(names, other, name);
    if known.contains(name) {
        let k = choose|k: int| 0 <= k < known.len() && known[k] == name;
        assert(all[k] == name);
    }
    if others.contains(name) {
        let k = choose|k: int| 0 <= k < others.len() && others[k] == name;
        assert(all[known.len() + k] == name);
    }
    if all.contains(name) {
        let k = choose|k: int| 0 <= k < all.len() && all[k] == name;
        if k < known.len() {
            assert(known[k] == name);
        } else {
            assert(others[k - known.len()] == name);
        }
    }
    if names.no_duplicates() {
        assert forall|i: int, j: int| 0 <= i < j < all.len() implies all[i] != all[j] by {
            if j < known.len() {
                if known[i] == known[j] {
                    known_tables_distinct(i, j);
                }
            } else if i < known.len() {
                let found = others[j - known.len()];
                assert(others.contains(found));
                filter_keeps(names, other, found);
                assert(known.contains(known[i]));
            } else {
                assert(others[i - known.len()] != others[j - known.len()]);
            }
        }
    }
}

/// The information level that asks for the objects of a database as a list.
pub const OBJECT_LIST_LEVEL: u32 = 1;

/// The type of the objects that are tables.
pub const TABLE_OBJECTS: u32 = 1;

/// The table that a record of the object list names; empty if it could not be read.
pub open spec fn object_name(cell: RetrievedView) -> Seq<char> {
    match cell.text() {
        Some(text) => text,
        None => Seq::empty(),
    }
}

/// The tables that the records of an object list name, in their order.
pub open spec fn object_names(cells: Seq<RetrievedView>) -> Seq<Seq<char>> {
    cells.map_values(|cell: RetrievedView| object_name(cell)).filter(
        |name: Seq<char>| name.len() > 0,
    )
}

/// The error of a database whose tables cannot be asked for, in words.
pub fn object_list_message(err: i32) -> (res: String)
    ensures
        res@ == list_error_text("JetGetObjectInfoW"@, err as int),
{
    let mut out: String = "JetGetObjectInfoW".to_owned();
    out.append(" failed: ");
    let code = signed_decimal_text(err as i64);
    out.append(code.as_str());
    out
}

/// A walk through the object list of a database for the names of its tables, in progress.
pub struct TableScan {
    step: ScanStep,
    names: Vec<String>,
    cells: Ghost<Seq<RetrievedView>>,
    moves: Ghost<Seq<i32>>,
}

impl TableScan {
    /// What to do next.
    pub closed spec fn next(&self) -> ScanStep {
        self.step
    }

    /// The name cells of the records that were read so far.
    pub closed spec fn read_cells(&self) -> Seq<RetrievedView> {
        self.cells@
    }

    /// The statuses of the moves so far.
    pub closed spec fn move_statuses(&self) -> Seq<i32> {
        self.moves@
    }

    #[verifier::type_invariant]
    closed spec fn holds_what_was_read(&self) -> bool {
        &&& texts(self.names@) == object_names(self.cells@)
        &&& match self.step {
            ScanStep::Query(_) => self.cells@.len() == 0 && self.moves@.len() == 0,
            ScanStep::Walk(cursor) => is_walk(cursor, self.moves@, self.cells@.len()),
            ScanStep::Done => self.cells@.len() == records_before_end(self.moves@),
            ScanStep::Failed(_) => true,
        }
    }

    /// Starts to ask for the tables of a database.
    pub fn new() -> (res: TableScan)
        ensures
            res.next() == ScanStep::Query(OBJECT_LIST_LEVEL),
            res.read_cells().len() == 0,
            res.move_statuses().len() == 0,
    {
        let names: Vec<String> = Vec::new();
        let ghost none = Seq::<RetrievedView>::empty();
        proof {
            reveal(Seq::filter);
            assert(texts(names@) =~= object_names(none));
        }
        TableScan {
            step: ScanStep::Query(OBJECT_LIST_LEVEL),
            names,
            cells: Ghost(none),
            moves: Ghost(Seq::empty()),
        }
    }

    /// Tells what to do next.
    pub fn step(&self) -> (res: ScanStep)
        ensures
            res == self.next(),
            res matches ScanStep::Walk(cursor) ==> is_walk(
                cursor,
                self.move_statuses(),
                self.read_cells().len(),
            ),
    {
        proof {
            use_type_invariant(self);
        }
        self.step
    }

    /// The object list was asked for, with this status.
    pub fn queried(self, err: i32) -> (res: TableScan)
        requires
            self.next() is Query,
        ensures
            res.next() == after_query(err),
            res.read_cells() == self.read_cells(),
            res.move_statuses() == self.move_statuses(),
    {
        proof {
            use_type_invariant(&self);
        }
        let step = if err < 0 {
            ScanStep::Failed(err)
        } else {
            ScanStep::Walk(CursorStep::start())
        };
        TableScan { step, names: self.names, cells: self.cells, moves: self.moves }
    }

    /// A move ended with this status.
    pub fn moved(self, err: i32) -> (res: TableScan)
        requires
            self.next() matches ScanStep::Walk(CursorStep::Move(_)),
        ensures
            res.next() == ScanStep::Walk(CursorStep::after_move(err)),
            res.read_cells() == self.read_cells(),
            res.move_statuses() == self.move_statuses().push(err),
    {
        proof {
            use_type_invariant(&self);
        }
        TableScan {
            step: ScanStep::Walk(CursorStep::moved(err)),
            names: self.names,
            cells: self.cells,
            moves: Ghost(self.moves@.push(err)),
        }
    }

    /// The name cell of a record was read.
    pub fn row(self, name: &Retrieved) -> (res: TableScan)
        requires
            self.next() == ScanStep::Walk(CursorStep::Read),
            name@.fits(),
        ensures
            res.next() == ScanStep::Walk(CursorStep::Move(MOVE_NEXT)),
            res.read_cells() == self.read_cells().push(name@),
            res.move_statuses() == self.move_statuses(),
    {
        proof {
            use_type_invariant(&self);
        }
        let ghost read = self.cells@;
        let ghost cells = read.push(name@);
        let ghost before = self.names@;
        proof {
            reveal(Seq::filter);
            let named = |cell: RetrievedView| object_name(cell);
            assert(cells.map_values(named).drop_last() =~= read.map_values(named));
            assert(cells.map_values(named).last() == object_name(name@));
        }
        let text = match name.retrieve_string() {
            Some(text) => text,
            None => String::new(),
        };
        let mut names = self.names;
        if !text.as_str().is_empty() {
            names.push(text);
            assert(texts(names@) =~= texts(before).push(names@.last()@));
        }
        TableScan {
            step: ScanStep::Walk(CursorStep::read()),
            names,
            cells: Ghost(cells),
            moves: self.moves,
        }
    }

    /// The object list was closed.
    pub fn closed(self) -> (res: TableScan)
        requires
            self.next() == ScanStep::Walk(CursorStep::Close),
        ensures
            res.next() == ScanStep::Done,
            res.read_cells() == self.read_cells(),
            res.move_statuses() == self.move_statuses(),
    {
        proof {
            use_type_invariant(&self);
            walk_reads_every_record(self.moves@, self.cells@.len());
        }
        TableScan {
            step: ScanStep::Done,
            names: self.names,
            cells: self.cells,
            moves: self.moves,
        }
    }

    /// The names of the tables; in the end, those of every record of the object list.
    pub fn into_names(self) -> (res: Vec<String>)
        ensures
            texts(res@) == object_names(self.read_cells()),
            self.next() == ScanStep::Done ==> self.read_cells().len() == records_before_end(
                self.move_statuses(),
            ),
    {
        proof {
            use_type_invariant(&self);
        }
        self.names
    }
}

/// The listing that follows from what was found out about the first of these tables: the number
/// of records of a table that could be opened, nothing of one that could not.
pub open spec fn listing(names: Seq<Seq<char>>, outcomes: Seq<Option<usize>>) -> Seq<
    (Seq<char>, usize),
>
    decreases outcomes.len(),
{
    if outcomes.len() == 0 {
        Seq::empty()
    } else {
        let before = listing(names, outcomes.drop_last());
        match outcomes.last() {
            Some(count) => before.push((names[outcomes.len() - 1], count)),
            None => before,
        }
    }
}

/// A table is listed with a number of records exactly if it could be opened and has so many.
pub proof fn listed_if_opened(
    names: Seq<Seq<char>>,
    outcomes: Seq<Option<usize>>,
    table: Seq<char>,
    count: usize,
)
    ensures
        listing(names, outcomes).contains((table, count)) <==> exists|i: int|
            0 <= i < outcomes.len() && #[trigger] outcomes[i] == Some(count) && names[i] == table,
    decreases outcomes.len(),
{
    if outcomes.len() > 0 {
        let init = outcomes.drop_last();
        let n = outcomes.len() - 1;
        let entry = (table, count);
        let all = listing(names, outcomes);
        let before = listing(names, init);
        listed_if_opened(names, init, table, count);
        if before.contains(entry) {
            let i = choose|i: int|
                0 <= i < init.len() && #[trigger] init[i] == Some(count) && names[i] == table;
            assert(outcomes[i] == Some(count));
            let k = choose|k: int| 0 <= k < before.len() && before[k] == entry;
            assert(all[k] == entry);
        }
        if all.contains(entry) && !before.contains(entry) {
            let k = choose|k: int| 0 <= k < all.len() && all[k] == entry;
            if k < before.len() {
                assert(before[k] == entry);
            }
            assert(outcomes[n] == Some(count) && names[n] == table);
        }
        if exists|i: int|
            0 <= i < outcomes.len() && #[trigger] outcomes[i] == Some(count) && names[i] == table {
            let i = choose|i: int|
                0 <= i < outcomes.len() && #[trigger] outcomes[i] == Some(count) && names[i]
                    == table;
            if i < n {
                assert(init[i] == Some(count));
            } else {
                assert(all.last() == entry);
                assert(all.contains(entry));
            }
        }
    }
}

/// Every table of a database that can be opened is listed with the number of its records, known
/// or not.
pub proof fn all_tables_are_listed(
    names: Seq<Seq<char>>,
    outcomes: Seq<Option<usize>>,
    table: Seq<char>,
    count: usize,
)
    requires
        names.contains(table),
        outcomes.len() == with_known_first(names).len(),
        forall|i: int|
            0 <= i < outcomes.len() && with_known_first(names)[i] == table ==> #[trigger] outcomes[i]
                == Some(count),
    ensures
        listing(with_known_first(names), outcomes).contains((table, count)),
{
    let tried = with_known_first(names);
    every_table_is_tried(names, table);
    let i = choose|i: int| 0 <= i < tried.len() && tried[i] == table;
    assert(outcomes[i] == Some(count));
    listed_if_opened(tried, outcomes, table, count);
}

/// What to do next when the tables are listed.
#[derive(Debug, Clone, Copy, PartialEq, Eq, Structural)]
pub enum ListStep {
    /// Open the table with this index, with this flag.
    OpenTable(usize, u32),
    /// Move by this offset; this many records were counted.
    Move(i32, usize),
    /// Close the table.
    Close,
    /// All tables are listed.
    Done,
}

/// The step after this many of `total` tables.
pub open spec fn after_table(done: nat, total: nat) -> ListStep {
    if done < total {
        ListStep::OpenTable(done as usize, READ_ONLY)
    } else {
        ListStep::Done
    }
}

fn step_after_table(done: usize, total: usize) -> (res: ListStep)
    ensures
        res == after_table(done as nat, total as nat),
{
    if done < total {
        ListStep::OpenTable(done, READ_ONLY)
    } else {
        ListStep::Done
    }
}

/// The views of a sequence of counted tables.
pub open spec fn count_views(found: Seq<(String, usize)>) -> Seq<(Seq<char>, usize)> {
    found.map_values(|t: (String, usize)| (t.0@, t.1))
}

/// A listing of tables, in progress.
pub struct TableList {
    step: ListStep,
    names: Vec<String>,
    table: usize,
    found: Vec<(String, usize)>,
    outcomes: Ghost<Seq<Option<usize>>>,
    moves: Ghost<Seq<i32>>,
}

impl SrumDatabase {
    /// Starts to list tables with the number of their records.
    pub fn list_tables(&self, names: Vec<String>) -> (res: TableList)
        ensures
            res.table_names() == texts(names@),
            res.next() == after_table(0, names@.len()),
            res.outcomes().len() == 0,
    {
        let found: Vec<(String, usize)> = Vec::new();
        let ghost none = Seq::<Option<usize>>::empty();
        assert(count_views(found@) =~= listing(texts(names@), none));
        let step = step_after_table(0, names.len());
        TableList {
            step,
            names,
            table: 0,
            found,
            outcomes: Ghost(none),
            moves: Ghost(Seq::empty()),
        }
    }
}

impl TableList {
    /// The tables to list.
    pub closed spec fn table_names(&self) -> Seq<Seq<char>> {
        texts(self.names@)
    }

    /// What to do next.
    pub closed spec fn next(&self) -> ListStep {
        self.step
    }

    /// What was found out about the first tables: the number of records, if it could be opened.
    pub closed spec fn outcomes(&self) -> Seq<Option<usize>> {
        self.outcomes@
    }

    /// The statuses of the moves in the table that is open.
    pub closed spec fn move_statuses(&self) -> Seq<i32> {
        self.moves@
    }

    #[verifier::type_invariant]
    closed spec fn lists_what_was_found(&self) -> bool {
        &&& count_views(self.found@) == listing(texts(self.names@), self.outcomes@)
        &&& self.outcomes@.len() == self.table <= self.names@.len()
        &&& match self.step {
            ListStep::OpenTable(index, flag) => index == self.table < self.names@.len() && flag
                == READ_ONLY,
            ListStep::Move(offset, count) => self.table < self.names@.len() && is_walk(
                CursorStep::Move(offset),
                self.moves@,
                count as nat,
            ),
            ListStep::Close => self.table >= 1,
            ListStep::Done => self.table == self.names@.len(),
        }
    }

    /// Tells what to do next: tables are taken in their order, until all are through.
    pub fn step(&self) -> (res: ListStep)
        ensures
            res == self.next(),
            res matches ListStep::OpenTable(index, flag) ==> index == self.outcomes().len()
                && index < self.table_names().len() && flag == READ_ONLY,
            res matches ListStep::Move(offset, count) ==> is_walk(
                CursorStep::Move(offset),
                self.move_statuses(),
                count as nat,
            ),
            res == ListStep::Done ==> self.outcomes().len() == self.table_names().len(),
    {
        proof {
            use_type_invariant(self);
        }
        self.step
    }

    /// The name of the table to open as the engine takes it.
    pub fn wide_name(&self) -> (res: Vec<u16>)
        requires
            self.next() is OpenTable,
        ensures
            res@ == wide(self.table_names()[self.outcomes().len() as int]),
    {
        proof {
            use_type_invariant(self);
        }
        to_wide(self.names[self.table].as_str())
    }

    /// Opening the table ended with this status; one that cannot be opened is passed over.
    pub fn opened(self, err: i32) -> (res: TableList)
        requires
            self.next() is OpenTable,
        ensures
            res.table_names() == self.table_names(),
            err >= 0 ==> {
                &&& res.next() == ListStep::Move(MOVE_FIRST, 0)
                &&& res.outcomes() == self.outcomes()
                &&& res.move_statuses().len() == 0
            },
            err < 0 ==> {
                &&& res.outcomes() == self.outcomes().push(None)
                &&& res.next() == after_table(res.outcomes().len(), res.table_names().len())
            },
    {
        proof {
            use_type_invariant(&self);
        }
        if err >= 0 {
            return TableList {
                step: ListStep::Move(MOVE_FIRST, 0),
                names: self.names,
                table: self.table,
                found: self.found,
                outcomes: self.outcomes,
                moves: Ghost(Seq::empty()),
            };
        }
        let ghost known = self.outcomes@;
        let ghost outcomes = known.push(None);
        proof {
            assert(outcomes.drop_last() =~= known);
        }
        let total: usize = self.names.len();
        let table: usize = self.table + 1;
        TableList {
            step: step_after_table(table, total),
            names: self.names,
            table,
            found: self.found,
            outcomes: Ghost(outcomes),
            moves: self.moves,
        }
    }

    /// A move ended with this status: there is one more record, or all are counted.
    pub fn moved(self, err: i32) -> (res: TableList)
        requires
            self.next() matches ListStep::Move(_, count) && (err >= 0 ==> count < usize::MAX),
        ensures
            self.next() matches ListStep::Move(_, count) && {
                &&& err >= 0 ==> {
                    &&& res.next() == ListStep::Move(MOVE_NEXT, (count + 1) as usize)
                    &&& res.outcomes() == self.outcomes()
                }
                &&& err < 0 ==> {
                    &&& res.next() == ListStep::Close
                    &&& res.outcomes() == self.outcomes().push(Some(count))
                    &&& count == records_before_end(res.move_statuses())
                }
            },
            res.table_names() == self.table_names(),
            res.move_statuses() == self.move_statuses().push(err),
    {
        proof {
            use_type_invariant(&self);
            if err < 0 {
                walk_reads_every_record(self.moves@.push(err), self.moves@.len());
            }
        }
        let count: usize = match self.step {
            ListStep::Move(_, count) => count,
            _ => 0,
        };
        if err >= 0 {
            return TableList {
                step: ListStep::Move(MOVE_NEXT, count + 1),
                names: self.names,
                table: self.table,
                found: self.found,
                outcomes: self.outcomes,
                moves: Ghost(self.moves@.push(err)),
            };
        }
        let ghost known = self.outcomes@;
        let ghost outcomes = known.push(Some(count));
        let ghost before = self.found@;
        let total: usize = self.names.len();
        let table: usize = self.table + 1;
        let name = self.names[self.table].clone();
        let mut found = self.found;
        found.push((name, count));
        proof {
            assert(outcomes.drop_last() =~= known);
            assert(count_views(found@) =~= count_views(before).push(
                (found@.last().0@, found@.last().1),
            ));
        }
        TableList {
            step: ListStep::Close,
            names: self.names,
            table,
            found,
            outcomes: Ghost(outcomes),
            moves: Ghost(self.moves@.push(err)),
        }
    }

    /// The table was closed.
    pub fn closed(self) -> (res: TableList)
        requires
            self.next() == ListStep::Close,
        ensures
            res.table_names() == self.table_names(),
            res.outcomes() == self.outcomes(),
            res.next() == after_table(res.outcomes().len(), res.table_names().len()),
    {
        proof {
            use_type_invariant(&self);
        }
        let total: usize = self.names.len();
        TableList {
            step: step_after_table(self.table, total),
            names: self.names,
            table: self.table,
            found: self.found,
            outcomes: self.outcomes,
            moves: self.moves,
        }
    }

    /// The tables that could be opened, each with the number of its records.
    pub fn into_tables(self) -> (res: Vec<(String, usize)>)
        ensures
            count_views(res@) == listing(self.table_names(), self.outcomes()),
    {
        proof {
            use_type_invariant(&self);
        }
        self.found
    }
}

/// The name in a record of the object list is the text of the bytes in its cell; the names are
/// those of all records that have one.
pub proof fn objects_go_by_their_names(cells: Seq<RetrievedView>, name: Seq<char>)
    ensures
        forall|i: int|
            0 <= i < cells.len() ==> object_name(#[trigger] cells[i]) == if cells[i].err >= 0
                && cells[i].actual > 0 {
                blob_text(cells[i].buf.take(cells[i].actual as int))
            } else {
                Seq::empty()
            },
        object_names(cells).contains(name) <==> name.len() > 0 && exists|i: int|
            0 <= i < cells.len() && object_name(#[trigger] cells[i]) == name,
{
    let all = cells.map_values(|cell: RetrievedView| object_name(cell));
    filter_keeps(all, |name: Seq<char>| name.len() > 0, name);
    if all.contains(name) {
        let k = choose|k: int| 0 <= k < all.len() && all[k] == name;
        assert(object_name(cells[k]) == name);
    }
    if exists|i: int| 0 <= i < cells.len() && object_name(#[trigger] cells[i]) == name {
        let k = choose|k: int| 0 <= k < cells.len() && object_name(#[trigger] cells[k]) == name;
        assert(all[k] == name);
    }
}

/// Names stay in the order of their records.
pub proof fn objects_stay_in_order(a: Seq<RetrievedView>, b: Seq<RetrievedView>)
    ensures
        object_names(a + b) == object_names(a) + object_names(b),
    decreases b.len(),
{
    reveal(Seq::filter);
    let named = |cell: RetrievedView| object_name(cell);
    let kept = |name: Seq<char>| name.len() > 0;
    if b.len() == 0 {
        assert(a + b =~= a);
        assert(b.map_values(named).filter(kept) =~= Seq::empty());
        assert(object_names(a) + object_names(b) =~= object_names(a));
    } else {
        let init = b.drop_last();
        objects_stay_in_order(a, init);
        assert((a + b).map_values(named).drop_last() =~= (a + init).map_values(named));
        assert((a + b).map_values(named).last() == object_name(b.last()));
        assert(b.map_values(named).drop_last() =~= init.map_values(named));
        assert(b.map_values(named).last() == object_name(b.last()));
        assert(object_names(a + b) =~= object_names(a) + object_names(b));
    }
}

/// Listed tables stay in their order: those of more outcomes come behind those of the first.
pub proof fn listing_stays_in_order(
    names: Seq<Seq<char>>,
    outcomes: Seq<Option<usize>>,
    next: Option<usize>,
)
    ensures
        next is None ==> listing(names, outcomes.push(next)) == listing(names, outcomes),
        next matches Some(count) ==> listing(names, outcomes.push(next)) == listing(
            names,
            outcomes,
        ).push((names[outcomes.len() as int], count)),
{
    assert(outcomes.push(next).drop_last() =~= outcomes);
}

/// Tables are opened one after the other, for reading only, and none is left out before the end.
pub proof fn tables_are_taken_in_order(done: nat, total: nat)
    requires
        total <= usize::MAX,
    ensures
        after_table(done, total) == ListStep::Done <==> done >= total,
        done < total ==> (after_table(done, total) matches ListStep::OpenTable(index, flag) && index
            == done && flag == 1),
{
}

/// A table that is not known goes by its own name.
pub proof fn unknown_tables_keep_their_name(guid: Seq<char>)
    requires
        !known_tables().contains(guid),
    ensures
        friendly_name(guid) == guid,
{
    let known = known_tables();
    assert(known[0] == ENERGY_USAGE_TABLE@ && known[1] == ENERGY_USAGE_LT_TABLE@);
    assert(known[2] == ENERGY_ESTIMATOR_TABLE@ && known[3] == TAGGED_ENERGY_TABLE@);
    assert(known[4] == APPLICATION_USAGE_TABLE@ && known[5] == NETWORK_USAGE_TABLE@);
    assert(known[6] == CONNECTIVITY_USAGE_TABLE@);
}

} // verus!
