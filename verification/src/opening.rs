//! How a database is opened: the calls that are made, one after the other.

use vstd::prelude::*;
use vstd::string::*;

use crate::bytes::{bytes_value, le32, numbers_hold_all_bytes};
use crate::database::SrumDatabase;
use crate::jet::{jet_check, JetError, READ_ONLY};
use crate::srum::{
    is_page_size, read_ese_page_size, PageSizeError, HEADER_LEN, PAGE_SIZE_OFFSET,
};
use crate::utf16::{decode_encode, decoded, encoded, to_wide, wide};

verus! {

/// The engine parameter for the page size.
pub const PARAM_DATABASE_PAGE_SIZE: u32 = 64;

/// The engine parameter that switches recovery on or off.
pub const PARAM_RECOVERY: u32 = 34;

/// The name of the engine instance.
pub const INSTANCE_NAME: &'static str = "pac_srum";

/// The value that switches recovery off.
pub const RECOVERY_OFF: &'static str = "0";

/// The calls that open a database, in their order.
#[derive(Debug, Clone, Copy, PartialEq, Eq, Structural)]
pub enum OpenStep {
    CreateInstance,
    SetPageSize,
    DisableRecovery,
    Init,
    BeginSession,
    AttachDatabase,
    OpenDatabase,
    /// The database is open.
    Opened,
}

impl OpenStep {
    /// The step that follows when a call succeeded.
    pub open spec fn following(self) -> OpenStep {
        match self {
            OpenStep::CreateInstance => OpenStep::SetPageSize,
            OpenStep::SetPageSize => OpenStep::DisableRecovery,
            OpenStep::DisableRecovery => OpenStep::Init,
            OpenStep::Init => OpenStep::BeginSession,
            OpenStep::BeginSession => OpenStep::AttachDatabase,
            OpenStep::AttachDatabase => OpenStep::OpenDatabase,
            OpenStep::OpenDatabase => OpenStep::Opened,
            OpenStep::Opened => OpenStep::Opened,
        }
    }

    /// How many calls come before a step.
    pub open spec fn position(self) -> nat {
        match self {
            OpenStep::CreateInstance => 0,
            OpenStep::SetPageSize => 1,
            OpenStep::DisableRecovery => 2,
            OpenStep::Init => 3,
            OpenStep::BeginSession => 4,
            OpenStep::AttachDatabase => 5,
            OpenStep::OpenDatabase => 6,
            OpenStep::Opened => 7,
        }
    }

    /// The name of the call, as errors give it.
    pub open spec fn op(self) -> Seq<char> {
        match self {
            OpenStep::CreateInstance => "JetCreateInstanceW"@,
            OpenStep::SetPageSize => "JetSetSystemParameter(PageSize)"@,
            OpenStep::DisableRecovery => "JetSetSystemParameter(Recovery)"@,
            OpenStep::Init => "JetInit"@,
            OpenStep::BeginSession => "JetBeginSessionW"@,
            OpenStep::AttachDatabase => "JetAttachDatabaseW"@,
            OpenStep::OpenDatabase => "JetOpenDatabaseW"@,
            OpenStep::Opened => ""@,
        }
    }

    /// Tells the step that follows when a call succeeded.
    pub fn advance(self) -> (res: OpenStep)
        ensures
            res == self.following(),
    {
        match self {
            OpenStep::CreateInstance => OpenStep::SetPageSize,
            OpenStep::SetPageSize => OpenStep::DisableRecovery,
            OpenStep::DisableRecovery => OpenStep::Init,
            OpenStep::Init => OpenStep::BeginSession,
            OpenStep::BeginSession => OpenStep::AttachDatabase,
            OpenStep::AttachDatabase => OpenStep::OpenDatabase,
            OpenStep::OpenDatabase => OpenStep::Opened,
            OpenStep::Opened => OpenStep::Opened,
        }
    }

    /// Tells the name of the call.
    pub fn op_name(self) -> (res: &'static str)
        ensures
            res@ == self.op(),
    {
        match self {
            OpenStep::CreateInstance => "JetCreateInstanceW",
            OpenStep::SetPageSize => "JetSetSystemParameter(PageSize)",
            OpenStep::DisableRecovery => "JetSetSystemParameter(Recovery)",
            OpenStep::Init => "JetInit",
            OpenStep::BeginSession => "JetBeginSessionW",
            OpenStep::AttachDatabase => "JetAttachDatabaseW",
            OpenStep::OpenDatabase => "JetOpenDatabaseW",
            OpenStep::Opened => "",
        }
    }
}

/// A call to make, with its arguments. Strings are zero-terminated UTF-16.
#[derive(Debug)]
pub enum OpenCall {
    /// Create an instance with this name.
    CreateInstance(Vec<u16>),
    /// Set an engine parameter to a number and, where there is one, a string.
    SetParameter(u32, usize, Option<Vec<u16>>),
    /// Start the engine.
    Init,
    /// Begin a session.
    BeginSession,
    /// Attach the database file at this path, with this flag.
    AttachDatabase(Vec<u16>, u32),
    /// Open the database file at this path, with this flag.
    OpenDatabase(Vec<u16>, u32),
    /// Nothing: the database is open.
    Nothing,
}

/// What an [`OpenCall`] stands for.
#[verifier::ext_equal]
pub enum OpenCallView {
    CreateInstance(Seq<u16>),
    SetParameter(u32, usize, Option<Seq<u16>>),
    Init,
    BeginSession,
    AttachDatabase(Seq<u16>, u32),
    OpenDatabase(Seq<u16>, u32),
    Nothing,
}

impl View for OpenCall {
    type V = OpenCallView;

    open spec fn view(&self) -> OpenCallView {
        match self {
            OpenCall::CreateInstance(name) => OpenCallView::CreateInstance(name@),
            OpenCall::SetParameter(id, value, text) => OpenCallView::SetParameter(
                *id,
                *value,
                match text {
                    Some(units) => Some(units@),
                    None => None,
                },
            ),
            OpenCall::Init => OpenCallView::Init,
            OpenCall::BeginSession => OpenCallView::BeginSession,
            OpenCall::AttachDatabase(path, flag) => OpenCallView::AttachDatabase(path@, *flag),
            OpenCall::OpenDatabase(path, flag) => OpenCallView::OpenDatabase(path@, *flag),
            OpenCall::Nothing => OpenCallView::Nothing,
        }
    }
}

/// The call of a step, for a database file with this path and page size.
pub open spec fn call_of(step: OpenStep, path: Seq<char>, page_size: usize) -> OpenCallView {
    match step {
        OpenStep::CreateInstance => OpenCallView::CreateInstance(wide(INSTANCE_NAME@)),
        OpenStep::SetPageSize => OpenCallView::SetParameter(
            PARAM_DATABASE_PAGE_SIZE,
            page_size,
            None,
        ),
        OpenStep::DisableRecovery => OpenCallView::SetParameter(
            PARAM_RECOVERY,
            0,
            Some(wide(RECOVERY_OFF@)),
        ),
        OpenStep::Init => OpenCallView::Init,
        OpenStep::BeginSession => OpenCallView::BeginSession,
        OpenStep::AttachDatabase => OpenCallView::AttachDatabase(wide(path), READ_ONLY),
        OpenStep::OpenDatabase => OpenCallView::OpenDatabase(wide(path), READ_ONLY),
        OpenStep::Opened => OpenCallView::Nothing,
    }
}

/// An opening of a database, in progress.
pub struct Opening {
    path: String,
    page_size: usize,
    step: OpenStep,
    statuses: Ghost<Seq<i32>>,
}

impl SrumDatabase {
    /// Starts to open a database file, given its path and the beginning of its contents.
    pub fn open(db_path: &str, header: &[u8]) -> (res: Result<Opening, PageSizeError>)
        requires
            header@.len() >= HEADER_LEN,
        ensures
            ({
                let found = le32(header@, PAGE_SIZE_OFFSET as int);
                match res {
                    Ok(opening) => {
                        &&& is_page_size(found as int)
                        &&& opening.page_bytes() == found
                        &&& opening.file_path() == db_path@
                        &&& opening.next() == OpenStep::CreateInstance
                        &&& opening.call_statuses().len() == 0
                    },
                    Err(e) => !is_page_size(found as int) && e.page_size == found,
                }
            }),
            res matches Ok(opening) ==> opening.page_bytes() == bytes_value(header@, 0xEC, 0xF0),
    {
        proof {
            numbers_hold_all_bytes(header@, 0xEC);
        }
        match read_ese_page_size(header) {
            Ok(page_size) => Ok(
                Opening {
                    path: db_path.to_owned(),
                    page_size,
                    step: OpenStep::CreateInstance,
                    statuses: Ghost(Seq::empty()),
                },
            ),
            Err(e) => Err(e),
        }
    }
}

impl Opening {
    /// The path of the database file.
    pub closed spec fn file_path(&self) -> Seq<char> {
        self.path@
    }

    /// The size of the pages of the file.
    pub closed spec fn page_bytes(&self) -> usize {
        self.page_size
    }

    /// The step to take next.
    pub closed spec fn next(&self) -> OpenStep {
        self.step
    }

    /// The statuses of the calls so far.
    pub closed spec fn call_statuses(&self) -> Seq<i32> {
        self.statuses@
    }

    /// The page size is one that a database can have, and the calls so far have led to the step.
    #[verifier::type_invariant]
    closed spec fn is_under_way(&self) -> bool {
        is_page_size(self.page_size as int) && open_outcome(self.statuses@) == Ok::<
            OpenStep,
            (OpenStep, i32),
        >(self.step)
    }

    /// Tells the step to take next: the one to which the calls so far have led.
    pub fn step(&self) -> (res: OpenStep)
        ensures
            res == self.next(),
            open_outcome(self.call_statuses()) == Ok::<OpenStep, (OpenStep, i32)>(res),
    {
        proof {
            use_type_invariant(self);
        }
        self.step
    }

    /// Tells the page size.
    pub fn page_size(&self) -> (res: usize)
        ensures
            res == self.page_bytes(),
            is_page_size(res as int),
    {
        proof {
            use_type_invariant(self);
        }
        self.page_size
    }

    /// Tells the call to make next.
    pub fn call(&self) -> (res: OpenCall)
        ensures
            res@ == call_of(self.next(), self.file_path(), self.page_bytes()),
    {
        match self.step {
            OpenStep::CreateInstance => OpenCall::CreateInstance(to_wide(INSTANCE_NAME)),
            OpenStep::SetPageSize => OpenCall::SetParameter(
                PARAM_DATABASE_PAGE_SIZE,
                self.page_size,
                None,
            ),
            OpenStep::DisableRecovery => OpenCall::SetParameter(
                PARAM_RECOVERY,
                0,
                Some(to_wide(RECOVERY_OFF)),
            ),
            OpenStep::Init => OpenCall::Init,
            OpenStep::BeginSession => OpenCall::BeginSession,
            OpenStep::AttachDatabase => OpenCall::AttachDatabase(
                to_wide(self.path.as_str()),
                READ_ONLY,
            ),
            OpenStep::OpenDatabase => OpenCall::OpenDatabase(
                to_wide(self.path.as_str()),
                READ_ONLY,
            ),
            OpenStep::Opened => OpenCall::Nothing,
        }
    }

    /// The call ended with this status: a negative one is an error, any other leads to the
    /// next step.
    pub fn returned(self, err: i32) -> (res: Result<Opening, JetError>)
        requires
            self.next() != OpenStep::Opened,
        ensures
            match res {
                Ok(opening) => {
                    &&& err >= 0
                    &&& opening.next() == self.next().following()
                    &&& opening.next().position() == self.next().position() + 1
                    &&& opening.file_path() == self.file_path()
                    &&& opening.page_bytes() == self.page_bytes()
                    &&& opening.call_statuses() == self.call_statuses().push(err)
                },
                Err(e) => {
                    &&& err < 0
                    &&& e.op@ == self.next().op()
                    &&& e.code == err
                    &&& open_outcome(self.call_statuses().push(err)) == Err::<
                        OpenStep,
                        (OpenStep, i32),
                    >((self.next(), err))
                },
            },
    {
        proof {
            use_type_invariant(&self);
            assert(self.statuses@.push(err).drop_last() =~= self.statuses@);
        }
        match jet_check(err, self.step.op_name()) {
            Ok(_) => Ok(
                Opening {
                    path: self.path,
                    page_size: self.page_size,
                    step: self.step.advance(),
                    statuses: Ghost(self.statuses@.push(err)),
                },
            ),
            Err(e) => Err(e),
        }
    }
}

/// Where an opening stands after calls with these statuses: at a step, or failed at one.
pub open spec fn open_outcome(statuses: Seq<i32>) -> Result<OpenStep, (OpenStep, i32)>
    decreases statuses.len(),
{
    if statuses.len() == 0 {
        Ok(OpenStep::CreateInstance)
    } else {
        match open_outcome(statuses.drop_last()) {
            Ok(step) => if statuses.last() < 0 {
                Err((step, statuses.last()))
            } else {
                Ok(step.following())
            },
            Err(e) => Err(e),
        }
    }
}

/// An opening is through after seven calls if and only if none of them failed; otherwise the
/// first failure, with its status, is the outcome.
pub proof fn opened_after_seven_calls(statuses: Seq<i32>)
    requires
        statuses.len() <= 7,
    ensures
        (forall|i: int| 0 <= i < statuses.len() ==> statuses[i] >= 0) ==> (open_outcome(
            statuses,
        ) matches Ok(step) && step.position() == statuses.len()),
        forall|i: int|
            0 <= i < statuses.len() && statuses[i] < 0 && (forall|j: int|
                0 <= j < i ==> statuses[j] >= 0) ==> (open_outcome(statuses) matches Err(e)
                && e.0.position() == i && e.1 == statuses[i]),
    decreases statuses.len(),
{
    if statuses.len() > 0 {
        let init = statuses.drop_last();
        let n = statuses.len() - 1;
        opened_after_seven_calls(init);
        assert forall|i: int|
            0 <= i < statuses.len() && statuses[i] < 0 && (forall|j: int|
                0 <= j < i ==> statuses[j] >= 0) implies (open_outcome(statuses) matches Err(e)
            && e.0.position() == i && e.1 == statuses[i]) by {
            if i < n {
                assert(init[i] == statuses[i]);
                assert(forall|j: int| 0 <= j < i ==> init[j] == statuses[j]);
            } else {
                assert(forall|j: int| 0 <= j < init.len() ==> init[j] == statuses[j]);
            }
        }
        if forall|i: int| 0 <= i < statuses.len() ==> statuses[i] >= 0 {
            assert(forall|j: int| 0 <= j < init.len() ==> init[j] == statuses[j]);
        }
    }
}

/// The calls carry what they are for: the page size of the file, recovery switched off, and the
/// path of the file, read back from its units, for reading only.
pub proof fn calls_carry_the_file(path: Seq<char>, page_size: usize)
    ensures
        call_of(OpenStep::SetPageSize, path, page_size) == OpenCallView::SetParameter(
            64,
            page_size,
            None,
        ),
        call_of(OpenStep::DisableRecovery, path, page_size) matches OpenCallView::SetParameter(
            id,
            value,
            Some(text),
        ) && id == 34 && value == 0 && text == wide("0"@),
        call_of(OpenStep::AttachDatabase, path, page_size) matches OpenCallView::AttachDatabase(
            units,
            flag,
        ) && flag == 1 && units.last() == 0 && decoded(units.drop_last()) == path,
        call_of(OpenStep::OpenDatabase, path, page_size) matches OpenCallView::OpenDatabase(
            units,
            flag,
        ) && flag == 1 && units.last() == 0 && decoded(units.drop_last()) == path,
{
    decode_encode(path);
    assert(wide(path).drop_last() =~= encoded(path));
}

} // verus!
