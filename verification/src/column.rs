//! Columns of database tables: what a cell holds, how it is read from a raw buffer, and how
//! it is written as text.

use vstd::prelude::*;
use vstd::string::*;
use vstd::utf8::*;

use crate::blob::{blob_text, bytes_to_string, utf16_blob_reads_back};
use crate::bytes::{
    bytes_value, bytes_value_injective, le16, le32, le64, low32, low_bits_are_congruent,
    numbers_hold_all_bytes, read_le16, read_le32, read_le64, signed16, signed32, signed32_low32,
    signed64, signs_keep_the_bits, to_low32, to_signed16, to_signed32, to_signed64,
};
use crate::text::{
    hex_list, hex_list_text, signed_decimal, signed_decimal_reads_back, signed_decimal_text,
    signed_value,
};
use crate::utf16::{encoded, units_at};

verus! {

/// The size in bytes of the buffer for a text column.
pub const TEXT_BUFFER: usize = 512;

/// The size in bytes of the buffer for a binary column.
pub const BINARY_BUFFER: usize = 4096;

/// The bits of an IEEE 754 number, as the database stores it.
#[derive(Debug, Clone, Copy, PartialEq, Eq, Structural)]
pub enum RawFloat {
    Single(u32),
    Double(u64),
}

/// The value of one cell. Floating-point numbers and dates are kept as their bits.
#[derive(Debug, Clone)]
pub enum ColumnValue {
    Long(i32),
    LongLong(i64),
    UnsignedLong(u32),
    Short(i16),
    Float(RawFloat),
    DateTime(u64),
    Text(String),
    Binary(Vec<u8>),
    Null,
}

/// What a [`ColumnValue`] stands for.
#[verifier::ext_equal]
pub enum ColumnValueView {
    Long(i32),
    LongLong(i64),
    UnsignedLong(u32),
    Short(i16),
    Float(RawFloat),
    DateTime(u64),
    Text(Seq<char>),
    Binary(Seq<u8>),
    Null,
}

impl View for ColumnValue {
    type V = ColumnValueView;

    open spec fn view(&self) -> ColumnValueView {
        match self {
            ColumnValue::Long(v) => ColumnValueView::Long(*v),
            ColumnValue::LongLong(v) => ColumnValueView::LongLong(*v),
            ColumnValue::UnsignedLong(v) => ColumnValueView::UnsignedLong(*v),
            ColumnValue::Short(v) => ColumnValueView::Short(*v),
            ColumnValue::Float(v) => ColumnValueView::Float(*v),
            ColumnValue::DateTime(v) => ColumnValueView::DateTime(*v),
            ColumnValue::Text(v) => ColumnValueView::Text(v@),
            ColumnValue::Binary(v) => ColumnValueView::Binary(v@),
            ColumnValue::Null => ColumnValueView::Null,
        }
    }
}

/// Name, identifier and type of a column.
#[derive(Debug)]
pub struct ColumnInfo {
    pub name: String,
    pub id: u32,
    pub col_type: u32,
}

/// What a [`ColumnInfo`] stands for.
#[verifier::ext_equal]
pub struct ColumnInfoView {
    pub name: Seq<char>,
    pub id: u32,
    pub col_type: u32,
}

impl View for ColumnInfo {
    type V = ColumnInfoView;

    open spec fn view(&self) -> ColumnInfoView {
        ColumnInfoView { name: self.name@, id: self.id, col_type: self.col_type }
    }
}

/// What the database answered when it was asked for a cell: a status, the size of the stored
/// value, and the buffer into which it was copied.
#[derive(Debug)]
pub struct Retrieved {
    pub err: i32,
    pub actual: u32,
    pub buf: Vec<u8>,
}

/// What a [`Retrieved`] stands for.
#[verifier::ext_equal]
pub struct RetrievedView {
    pub err: i32,
    pub actual: u32,
    pub buf: Seq<u8>,
}

impl View for Retrieved {
    type V = RetrievedView;

    open spec fn view(&self) -> RetrievedView {
        RetrievedView { err: self.err, actual: self.actual, buf: self.buf@ }
    }
}

impl RetrievedView {
    /// Whether a value of exactly `size` bytes was copied.
    pub open spec fn holds(self, size: nat) -> bool {
        self.err >= 0 && self.actual == size
    }

    /// Whether any bytes were copied.
    pub open spec fn holds_some(self) -> bool {
        self.err >= 0 && self.actual > 0
    }

    /// Whether the stored value is no longer than the buffer.
    pub open spec fn fits(self) -> bool {
        self.holds_some() ==> self.actual <= self.buf.len()
    }

    /// The unsigned 32-bit number in the cell.
    pub open spec fn number(self) -> Option<u32> {
        if self.holds(4) {
            Some(le32(self.buf, 0))
        } else {
            None
        }
    }

    /// The bytes in the cell.
    pub open spec fn bytes(self) -> Option<Seq<u8>> {
        if self.holds_some() {
            Some(self.buf.take(self.actual as int))
        } else {
            None
        }
    }

    /// The text in the cell.
    pub open spec fn text(self) -> Option<Seq<char>> {
        match self.bytes() {
            Some(data) => Some(blob_text(data)),
            None => None,
        }
    }
}

impl Retrieved {
    /// The unsigned 32-bit number in the cell, if it holds four bytes.
    pub fn retrieve_u32(&self) -> (res: Option<u32>)
        requires
            self@.buf.len() >= 4,
        ensures
            res == self@.number(),
            res is Some <==> self.err >= 0 && self.actual == 4,
            res matches Some(v) ==> v == bytes_value(self.buf@, 0, 4),
    {
        proof {
            numbers_hold_all_bytes(self.buf@, 0);
        }
        if self.err >= 0 && self.actual == 4 {
            Some(read_le32(self.buf.as_slice(), 0))
        } else {
            None
        }
    }

    /// The bytes in the cell, if there are any.
    pub fn retrieve_bytes(&self) -> (res: Option<Vec<u8>>)
        requires
            self@.fits(),
        ensures
            match res {
                Some(data) => self@.bytes() == Some(data@),
                None => self@.bytes() is None,
            },
            res is Some <==> self.err >= 0 && self.actual > 0,
            res matches Some(data) ==> data@.len() == self.actual && (forall|i: int|
                0 <= i < data@.len() ==> #[trigger] data@[i] == self.buf@[i]),
    {
        if self.err >= 0 && self.actual > 0 {
            let n: usize = self.actual as usize;
            let mut data: Vec<u8> = Vec::new();
            let mut i: usize = 0;
            while i < n
                invariant
                    0 <= i <= n <= self.buf@.len(),
                    data@ == self.buf@.take(i as int),
                decreases n - i,
            {
                data.push(self.buf[i]);
                i = i + 1;
            }
            Some(data)
        } else {
            None
        }
    }

    /// The text in the cell, if it holds any bytes.
    pub fn retrieve_string(&self) -> (res: Option<String>)
        requires
            self@.fits(),
        ensures
            match res {
                Some(text) => self@.text() == Some(text@),
                None => self@.text() is None,
            },
            res is Some <==> self.err >= 0 && self.actual > 0,
            forall|s: Seq<char>|
                !s.contains('\0') && self.err >= 0 && self.actual > 0 && self.buf@.take(
                    self.actual as int,
                ) == #[trigger] encode_utf8(s) ==> (res matches Some(text) && text@ == s),
    {
        match self.retrieve_bytes() {
            Some(data) => Some(bytes_to_string(data.as_slice())),
            None => None,
        }
    }
}

/// Whether cells of this column type have no fixed size.
pub open spec fn is_variable(col_type: u32) -> bool {
    !(1 <= col_type <= 8 || col_type == 14 || col_type == 15)
}

/// The size of the buffer into which a cell of this column type is copied.
pub open spec fn buffer_len(col_type: u32) -> nat {
    if col_type == 3 {
        2
    } else if col_type == 1 || col_type == 2 || col_type == 4 || col_type == 6 || col_type == 14 {
        4
    } else if col_type == 5 || col_type == 7 || col_type == 8 || col_type == 15 {
        8
    } else if col_type == 10 || col_type == 12 {
        TEXT_BUFFER as nat
    } else {
        BINARY_BUFFER as nat
    }
}

/// Whether an answer is one that can be given for this column type: it has the buffer of that
/// type, and a value of variable size fits into it.
pub open spec fn answers(r: RetrievedView, col_type: u32) -> bool {
    &&& r.buf.len() == buffer_len(col_type)
    &&& is_variable(col_type) ==> r.fits()
}

/// The value of a cell of this column type.
pub open spec fn cell_value(r: RetrievedView, col_type: u32) -> ColumnValueView {
    if col_type == 1 || col_type == 2 || col_type == 4 {
        // Bit, UnsignedByte, Long
        if r.holds(4) {
            ColumnValueView::Long(signed32(le32(r.buf, 0)))
        } else {
            ColumnValueView::Null
        }
    } else if col_type == 3 {
        // Short
        if r.holds(2) {
            ColumnValueView::Short(signed16(le16(r.buf, 0)))
        } else {
            ColumnValueView::Null
        }
    } else if col_type == 5 || col_type == 7 {
        // Currency, IEEEDouble
        if r.holds(8) {
            ColumnValueView::Float(RawFloat::Double(le64(r.buf, 0)))
        } else {
            ColumnValueView::Null
        }
    } else if col_type == 6 {
        // IEEESingle
        if r.holds(4) {
            ColumnValueView::Float(RawFloat::Single(le32(r.buf, 0)))
        } else {
            ColumnValueView::Null
        }
    } else if col_type == 8 {
        // DateTime
        if r.holds(8) {
            ColumnValueView::DateTime(le64(r.buf, 0))
        } else {
            ColumnValueView::Null
        }
    } else if col_type == 10 || col_type == 12 {
        // Text, LongText
        match r.text() {
            Some(text) => ColumnValueView::Text(text),
            None => ColumnValueView::Null,
        }
    } else if col_type == 14 {
        // UnsignedLong
        match r.number() {
            Some(v) => ColumnValueView::UnsignedLong(v),
            None => ColumnValueView::Null,
        }
    } else if col_type == 15 {
        // LongLong
        if r.holds(8) {
            ColumnValueView::LongLong(signed64(le64(r.buf, 0)))
        } else {
            ColumnValueView::Null
        }
    } else {
        // Binary, LongBinary, GUID and every other type
        match r.bytes() {
            Some(data) => ColumnValueView::Binary(data),
            None => ColumnValueView::Null,
        }
    }
}

/// The size of the buffer to hand out for a cell of this column type.
pub fn buffer_size(col_type: u32) -> (n: usize)
    ensures
        n == buffer_len(col_type),
{
    match col_type {
        3 => 2,
        1 | 2 | 4 | 6 | 14 => 4,
        5 | 7 | 8 | 15 => 8,
        10 | 12 => TEXT_BUFFER,
        _ => BINARY_BUFFER,
    }
}

/// Tells whether an answer is one that [`retrieve_column_value`] can read.
pub fn is_answer(r: &Retrieved, col_type: u32) -> (res: bool)
    ensures
        res == answers(r@, col_type),
{
    let variable: bool = !(1 <= col_type && col_type <= 8 || col_type == 14 || col_type == 15);
    if r.buf.len() != buffer_size(col_type) {
        return false;
    }
    !variable || !(r.err >= 0 && r.actual > 0) || r.actual as usize <= r.buf.len()
}

/// Reads the value of a cell according to its column type.
pub fn retrieve_column_value(r: &Retrieved, col_type: u32) -> (res: ColumnValue)
    requires
        answers(r@, col_type),
    ensures
        res@ == cell_value(r@, col_type),
        fits_bytes(r@, col_type, res@),
        forall|s: Seq<char>|
            (col_type == 10 || col_type == 12) && !s.contains('\0') && r.err >= 0 && r.actual > 0
                && r.buf@.take(r.actual as int) == #[trigger] encode_utf8(s) ==> res@
                == ColumnValueView::Text(s),
{
    proof {
        cells_hold_their_bytes(r@, col_type);
    }
    let whole: bool = r.err >= 0 && r.actual as usize == r.buf.len();
    match col_type {
        1 | 2 | 4 => match r.retrieve_u32() {
            Some(v) => ColumnValue::Long(to_signed32(v)),
            None => ColumnValue::Null,
        },
        3 => if whole {
            ColumnValue::Short(to_signed16(read_le16(r.buf.as_slice(), 0)))
        } else {
            ColumnValue::Null
        },
        5 | 7 => if whole {
            ColumnValue::Float(RawFloat::Double(read_le64(r.buf.as_slice(), 0)))
        } else {
            ColumnValue::Null
        },
        6 => match r.retrieve_u32() {
            Some(v) => ColumnValue::Float(RawFloat::Single(v)),
            None => ColumnValue::Null,
        },
        8 => if whole {
            ColumnValue::DateTime(read_le64(r.buf.as_slice(), 0))
        } else {
            ColumnValue::Null
        },
        10 | 12 => match r.retrieve_string() {
            Some(text) => ColumnValue::Text(text),
            None => ColumnValue::Null,
        },
        14 => match r.retrieve_u32() {
            Some(v) => ColumnValue::UnsignedLong(v),
            None => ColumnValue::Null,
        },
        15 => if whole {
            ColumnValue::LongLong(to_signed64(read_le64(r.buf.as_slice(), 0)))
        } else {
            ColumnValue::Null
        },
        _ => match r.retrieve_bytes() {
            Some(data) => ColumnValue::Binary(data),
            None => ColumnValue::Null,
        },
    }
}

/// A cell as text. Where the text of a floating-point number or of a date is needed, its bits
/// are handed on.
#[derive(Debug)]
pub enum CellText {
    /// The text itself.
    Ready(String),
    /// A number, to be written with four decimals.
    Float(RawFloat),
    /// A date in days, to be written as a timestamp.
    Date(u64),
}

/// What a [`CellText`] stands for.
#[verifier::ext_equal]
pub enum CellTextView {
    Ready(Seq<char>),
    Float(RawFloat),
    Date(u64),
}

impl View for CellText {
    type V = CellTextView;

    open spec fn view(&self) -> CellTextView {
        match self {
            CellText::Ready(text) => CellTextView::Ready(text@),
            CellText::Float(v) => CellTextView::Float(*v),
            CellText::Date(v) => CellTextView::Date(*v),
        }
    }
}

/// The text of a value: integers in decimal, text as it stands, bytes as a hexadecimal list,
/// `NULL` for nothing.
pub open spec fn value_text(v: ColumnValueView) -> CellTextView {
    match v {
        ColumnValueView::Long(n) => CellTextView::Ready(signed_decimal(n as int)),
        ColumnValueView::LongLong(n) => CellTextView::Ready(signed_decimal(n as int)),
        ColumnValueView::UnsignedLong(n) => CellTextView::Ready(signed_decimal(n as int)),
        ColumnValueView::Short(n) => CellTextView::Ready(signed_decimal(n as int)),
        ColumnValueView::Float(bits) => CellTextView::Float(bits),
        ColumnValueView::DateTime(bits) => CellTextView::Date(bits),
        ColumnValueView::Text(text) => CellTextView::Ready(text),
        ColumnValueView::Binary(data) => CellTextView::Ready(hex_list(data)),
        ColumnValueView::Null => CellTextView::Ready("NULL"@),
    }
}

impl ColumnValue {
    /// The value as text, as far as it is no floating-point number and no date.
    pub fn to_text(&self) -> (res: CellText)
        ensures
            res@ == value_text(self@),
    {
        match self {
            ColumnValue::Long(v) => CellText::Ready(signed_decimal_text(*v as i64)),
            ColumnValue::LongLong(v) => CellText::Ready(signed_decimal_text(*v)),
            ColumnValue::UnsignedLong(v) => CellText::Ready(signed_decimal_text(*v as i64)),
            ColumnValue::Short(v) => CellText::Ready(signed_decimal_text(*v as i64)),
            ColumnValue::Float(bits) => CellText::Float(*bits),
            ColumnValue::DateTime(bits) => CellText::Date(*bits),
            ColumnValue::Text(text) => CellText::Ready(text.clone()),
            ColumnValue::Binary(data) => CellText::Ready(hex_list_text(data.as_slice())),
            ColumnValue::Null => CellText::Ready("NULL".to_owned()),
        }
    }

    /// Whether the cell holds nothing.
    pub fn is_null(&self) -> (res: bool)
        ensures
            res == (self@ is Null),
    {
        match self {
            ColumnValue::Null => true,
            _ => false,
        }
    }

    /// The value as an identifier, if it is an integer.
    pub fn numeric_id(&self) -> (res: Option<u32>)
        ensures
            res == id_of(self@),
            match self {
                ColumnValue::Long(n) => res matches Some(id) && (*n - id) % 0x1_0000_0000 == 0,
                ColumnValue::LongLong(n) => res matches Some(id) && (*n - id) % 0x1_0000_0000 == 0,
                ColumnValue::UnsignedLong(n) => res == Some(*n),
                ColumnValue::Short(n) => res matches Some(id) && (*n - id) % 0x1_0000_0000 == 0,
                _ => res is None,
            },
    {
        match self {
            ColumnValue::Long(v) => Some(to_low32(*v as i64)),
            ColumnValue::UnsignedLong(v) => Some(*v),
            ColumnValue::Short(v) => Some(to_low32(*v as i64)),
            ColumnValue::LongLong(v) => Some(to_low32(*v)),
            _ => None,
        }
    }
}

/// The identifier that an integer cell holds: its low 32 bits.
pub open spec fn id_of(v: ColumnValueView) -> Option<u32> {
    match v {
        ColumnValueView::Long(n) => Some(low32(n as int)),
        ColumnValueView::UnsignedLong(n) => Some(n),
        ColumnValueView::Short(n) => Some(low32(n as int)),
        ColumnValueView::LongLong(n) => Some(low32(n as int)),
        _ => None,
    }
}

/// The same four bytes are the same identifier, whether the column is signed or unsigned.
pub proof fn id_ignores_sign(r: RetrievedView)
    requires
        r.holds(4),
    ensures
        id_of(cell_value(r, 4)) == Some(le32(r.buf, 0)),
        id_of(cell_value(r, 14)) == Some(le32(r.buf, 0)),
{
    signed32_low32(le32(r.buf, 0));
}

/// The integer that a value holds, if it is one.
pub open spec fn integer_of(v: ColumnValueView) -> Option<int> {
    match v {
        ColumnValueView::Long(n) => Some(n as int),
        ColumnValueView::LongLong(n) => Some(n as int),
        ColumnValueView::UnsignedLong(n) => Some(n as int),
        ColumnValueView::Short(n) => Some(n as int),
        _ => None,
    }
}

/// Whether a value takes in what was copied, all of its bytes: a number is congruent to the
/// number that the bytes make up, the bits of a floating-point number or of a date are that
/// number, and bytes are those that were copied. Nothing stands for a cell that could not be
/// read or does not have the size of its type.
pub open spec fn fits_bytes(r: RetrievedView, col_type: u32, v: ColumnValueView) -> bool {
    let copied = |size: int| r.err >= 0 && r.actual == size;
    match v {
        ColumnValueView::Long(n) => {
            &&& col_type == 1 || col_type == 2 || col_type == 4
            &&& copied(4)
            &&& (n - bytes_value(r.buf, 0, 4)) % 0x1_0000_0000 == 0
        },
        ColumnValueView::Short(n) => {
            &&& col_type == 3
            &&& copied(2)
            &&& (n - bytes_value(r.buf, 0, 2)) % 0x1_0000 == 0
        },
        ColumnValueView::UnsignedLong(n) => {
            &&& col_type == 14
            &&& copied(4)
            &&& n == bytes_value(r.buf, 0, 4)
        },
        ColumnValueView::LongLong(n) => {
            &&& col_type == 15
            &&& copied(8)
            &&& (n - bytes_value(r.buf, 0, 8)) % 0x1_0000_0000_0000_0000 == 0
        },
        ColumnValueView::Float(RawFloat::Single(bits)) => {
            &&& col_type == 6
            &&& copied(4)
            &&& bits == bytes_value(r.buf, 0, 4)
        },
        ColumnValueView::Float(RawFloat::Double(bits)) => {
            &&& col_type == 5 || col_type == 7
            &&& copied(8)
            &&& bits == bytes_value(r.buf, 0, 8)
        },
        ColumnValueView::DateTime(bits) => {
            &&& col_type == 8
            &&& copied(8)
            &&& bits == bytes_value(r.buf, 0, 8)
        },
        ColumnValueView::Text(text) => {
            &&& col_type == 10 || col_type == 12
            &&& r.err >= 0 && r.actual > 0
            &&& text == blob_text(r.buf.take(r.actual as int))
        },
        ColumnValueView::Binary(data) => {
            &&& !(1 <= col_type <= 8) && col_type != 10 && col_type != 12 && col_type != 14
                && col_type != 15
            &&& r.err >= 0 && r.actual > 0
            &&& data == r.buf.take(r.actual as int)
        },
        ColumnValueView::Null => {
            &&& col_type == 3 ==> !copied(2)
            &&& col_type == 1 || col_type == 2 || col_type == 4 || col_type == 6 || col_type == 14
                ==> !copied(4)
            &&& col_type == 5 || col_type == 7 || col_type == 8 || col_type == 15 ==> !copied(8)
            &&& !(1 <= col_type <= 8) && col_type != 14 && col_type != 15 ==> r.err < 0 || r.actual
                == 0
        },
    }
}

/// Every cell holds what its bytes say, by its column type, and no byte is passed over.
pub proof fn cells_hold_their_bytes(r: RetrievedView, col_type: u32)
    ensures
        fits_bytes(r, col_type, cell_value(r, col_type)),
{
    numbers_hold_all_bytes(r.buf, 0);
    signs_keep_the_bits(le16(r.buf, 0), le32(r.buf, 0), le64(r.buf, 0));
}

proof fn close_congruent(a: int, b: int, x: int, m: int)
    requires
        m > 0,
        (x - a) % m == 0,
        (x - b) % m == 0,
        0 <= a < m,
        0 <= b < m,
    ensures
        a == b,
{
    let p = (x - a) / m;
    let q = (x - b) / m;
    assert(x - a == m * p && x - b == m * q) by (nonlinear_arith)
        requires
            m > 0,
            (x - a) % m == 0,
            (x - b) % m == 0,
            p == (x - a) / m,
            q == (x - b) / m,
    ;
    assert(p == q) by (nonlinear_arith)
        requires
            m > 0,
            x - a == m * p,
            x - b == m * q,
            0 <= a < m,
            0 <= b < m,
    ;
}

proof fn bytes_value_bound(data: Seq<u8>, n: nat)
    requires
        n == 2 || n == 4 || n == 8,
    ensures
        n == 2 ==> 0 <= bytes_value(data, 0, 2) < 0x1_0000,
        n == 4 ==> 0 <= bytes_value(data, 0, 4) < 0x1_0000_0000,
        n == 8 ==> 0 <= bytes_value(data, 0, 8) < 0x1_0000_0000_0000_0000,
{
    numbers_hold_all_bytes(data, 0);
}

/// Cells of a type with a fixed size that differ in any of their bytes hold different values.
pub proof fn different_cells_differ(a: RetrievedView, b: RetrievedView, col_type: u32, i: int)
    requires
        1 <= col_type <= 8 || col_type == 14 || col_type == 15,
        a.err >= 0,
        b.err >= 0,
        a.actual == buffer_len(col_type),
        b.actual == buffer_len(col_type),
        0 <= i < buffer_len(col_type),
        a.buf[i] != b.buf[i],
    ensures
        cell_value(a, col_type) !is Null,
        cell_value(a, col_type) != cell_value(b, col_type),
{
    let n = buffer_len(col_type);
    cells_hold_their_bytes(a, col_type);
    cells_hold_their_bytes(b, col_type);
    bytes_value_bound(a.buf, n);
    bytes_value_bound(b.buf, n);
    if cell_value(a, col_type) == cell_value(b, col_type) {
        let x = bytes_value(a.buf, 0, n as int);
        let y = bytes_value(b.buf, 0, n as int);
        match cell_value(a, col_type) {
            ColumnValueView::Long(v) => close_congruent(x, y, v as int, 0x1_0000_0000),
            ColumnValueView::Short(v) => close_congruent(x, y, v as int, 0x1_0000),
            ColumnValueView::LongLong(v) => close_congruent(
                x,
                y,
                v as int,
                0x1_0000_0000_0000_0000,
            ),
            _ => {},
        }
        bytes_value_injective(a.buf, b.buf, 0, n as int);
    }
}

/// A text cell with UTF-16 in Latin-1 gives its text.
pub proof fn utf16_cells_read_back(r: RetrievedView, col_type: u32, s: Seq<char>)
    requires
        col_type == 10 || col_type == 12,
        r.err >= 0,
        0 < r.actual <= r.buf.len(),
        r.actual == 2 * encoded(s).len(),
        units_at(r.buf.take(r.actual as int), 0, encoded(s).len()) == encoded(s),
        forall|i: int| 0 <= i < s.len() ==> #[trigger] s[i] < '\u{100}',
        exists|i: int| 0 <= i < s.len() && '\u{20}' < #[trigger] s[i] < '\u{7f}',
        s.last() != '\0',
    ensures
        cell_value(r, col_type) == ColumnValueView::Text(s),
{
    utf16_blob_reads_back(r.buf.take(r.actual as int), s);
}

/// Buffers have the size of their cells: two, four or eight bytes where that is fixed, 512 for
/// text and 4096 for bytes. A cell that fits into its buffer can be read.
pub proof fn buffers_have_the_size_of_their_cells(r: RetrievedView, col_type: u32)
    ensures
        col_type == 10 || col_type == 12 ==> buffer_len(col_type) == 512,
        !(1 <= col_type <= 8) && col_type != 10 && col_type != 12 && col_type != 14 && col_type != 15
            ==> buffer_len(col_type) == 4096,
        r.buf.len() == buffer_len(col_type) && r.actual <= r.buf.len() ==> answers(r, col_type),
        r.buf.len() == buffer_len(col_type) && r.err < 0 ==> answers(r, col_type),
        r.buf.len() == buffer_len(col_type) && r.err >= 0 && r.actual == r.buf.len()
            ==> cell_value(r, col_type) !is Null,
        answers(r, col_type) ==> r.buf.len() == buffer_len(col_type),
        answers(r, col_type) && (cell_value(r, col_type) is Text || cell_value(
            r,
            col_type,
        ) is Binary) ==> r.actual <= r.buf.len(),
{
    cells_hold_their_bytes(r, col_type);
}

/// The identifier in an integer differs from it by a multiple of the range of identifiers;
/// nothing else holds an identifier.
pub proof fn identifiers_are_congruent(v: ColumnValueView)
    ensures
        id_of(v) is Some <==> integer_of(v) is Some,
        id_of(v) matches Some(id) ==> (integer_of(v)->0 - id) % 0x1_0000_0000 == 0,
{
    if let Some(n) = integer_of(v) {
        low_bits_are_congruent(n);
    }
}

/// Integers are read back from their text, text is its own, and bytes are read back from the
/// hexadecimal list.
pub proof fn values_read_back(v: ColumnValueView)
    ensures
        integer_of(v) matches Some(n) ==> (value_text(v) matches CellTextView::Ready(text)
            && signed_value(text) == n),
        v matches ColumnValueView::Text(text) ==> value_text(v) == CellTextView::Ready(text),
        v matches ColumnValueView::Binary(data) ==> (value_text(v) matches CellTextView::Ready(text)
            && text == hex_list(data)),
        v matches ColumnValueView::Float(bits) ==> value_text(v) == CellTextView::Float(bits),
        v matches ColumnValueView::DateTime(bits) ==> value_text(v) == CellTextView::Date(bits),
{
    if let Some(n) = integer_of(v) {
        signed_decimal_reads_back(n);
    }
}

/// Columns and answers are seen with all of their fields, and values with what they hold.
pub proof fn columns_and_answers_are_seen_whole(c: ColumnInfo, r: Retrieved, v: ColumnValue)
    ensures
        c@.name == c.name@ && c@.id == c.id && c@.col_type == c.col_type,
        r@.err == r.err && r@.actual == r.actual && r@.buf == r.buf@,
        v matches ColumnValue::Long(n) ==> v@ == ColumnValueView::Long(n),
        v matches ColumnValue::LongLong(n) ==> v@ == ColumnValueView::LongLong(n),
        v matches ColumnValue::UnsignedLong(n) ==> v@ == ColumnValueView::UnsignedLong(n),
        v matches ColumnValue::Short(n) ==> v@ == ColumnValueView::Short(n),
        v matches ColumnValue::Float(bits) ==> v@ == ColumnValueView::Float(bits),
        v matches ColumnValue::DateTime(bits) ==> v@ == ColumnValueView::DateTime(bits),
        v matches ColumnValue::Text(text) ==> v@ == ColumnValueView::Text(text@),
        v matches ColumnValue::Binary(data) ==> v@ == ColumnValueView::Binary(data@),
        v is Null ==> v@ is Null,
{
}

} // verus!
