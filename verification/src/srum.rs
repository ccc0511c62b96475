//! The energy history database file: its page size, its tables and their names.

use vstd::arithmetic::power2::*;
use vstd::prelude::*;
use vstd::string::*;

use crate::bytes::{bytes_value, le32, numbers_hold_all_bytes, read_le32};
use crate::text::{decimal, decimal_reads_back, is_numeral, numeral_value, push_decimal, same_text};

verus! {

/// The table with the energy use of each application.
pub const ENERGY_USAGE_TABLE: &'static str = "{FEE4E14F-02A9-4550-B5CE-5FA2DA202E37}";

/// The table with the energy use over a longer time.
pub const ENERGY_USAGE_LT_TABLE: &'static str = "{FEE4E14F-02A9-4550-B5CE-5FA2DA202E37}LT";

/// The table of the energy estimator.
pub const ENERGY_ESTIMATOR_TABLE: &'static str = "{DA73FB89-2BEA-4DDC-86B8-6E048C6DA477}";

/// The table of the tagged energy provider.
pub const TAGGED_ENERGY_TABLE: &'static str = "{B6D82AF1-F780-4E17-8077-6CB9AD8A6FC4}";

/// The table with the resource use of applications.
pub const APPLICATION_USAGE_TABLE: &'static str = "{D10CA2FE-6FCF-4F6D-848E-B2E99266FA89}";

/// The table with the network traffic.
pub const NETWORK_USAGE_TABLE: &'static str = "{973F5D5C-1D90-4944-BE8E-24B94231A174}";

/// The table with the network connections.
pub const CONNECTIVITY_USAGE_TABLE: &'static str = "{DD6636C4-8929-4683-974E-22C046A43763}";

/// The table that maps identifiers to names.
pub const ID_MAP_TABLE: &'static str = "SruDbIdMapTable";

/// The name under which people know a table; an unknown table goes by its own name.
pub open spec fn friendly_name(guid: Seq<char>) -> Seq<char> {
    if guid == ENERGY_USAGE_TABLE@ {
        "Energy Usage"@
    } else if guid == ENERGY_USAGE_LT_TABLE@ {
        "Energy Usage (Long Term)"@
    } else if guid == ENERGY_ESTIMATOR_TABLE@ {
        "Energy Estimator Provider"@
    } else if guid == TAGGED_ENERGY_TABLE@ {
        "Tagged Energy Provider"@
    } else if guid == APPLICATION_USAGE_TABLE@ {
        "Application Resource Usage"@
    } else if guid == NETWORK_USAGE_TABLE@ {
        "Network Data Usage"@
    } else if guid == CONNECTIVITY_USAGE_TABLE@ {
        "Network Connectivity Usage"@
    } else {
        guid
    }
}

/// The friendly name of a table.
pub fn table_friendly_name(guid: &str) -> (res: &str)
    ensures
        res@ == friendly_name(guid@),
{
    if same_text(guid, ENERGY_USAGE_TABLE) {
        "Energy Usage"
    } else if same_text(guid, ENERGY_USAGE_LT_TABLE) {
        "Energy Usage (Long Term)"
    } else if same_text(guid, ENERGY_ESTIMATOR_TABLE) {
        "Energy Estimator Provider"
    } else if same_text(guid, TAGGED_ENERGY_TABLE) {
        "Tagged Energy Provider"
    } else if same_text(guid, APPLICATION_USAGE_TABLE) {
        "Application Resource Usage"
    } else if same_text(guid, NETWORK_USAGE_TABLE) {
        "Network Data Usage"
    } else if same_text(guid, CONNECTIVITY_USAGE_TABLE) {
        "Network Connectivity Usage"
    } else {
        guid
    }
}

/// The number of bytes of a database file that are read to learn its page size.
pub const HEADER_LEN: usize = 0xF0;

/// Where the page size stands in the header.
pub const PAGE_SIZE_OFFSET: usize = 0xEC;

/// A page size that no database has.
#[derive(Debug)]
pub struct PageSizeError {
    pub page_size: u32,
}

/// The error of a page size that no database has, in words.
pub open spec fn page_size_error_text(page_size: nat) -> Seq<char> {
    "Unexpected ESE page size "@ + decimal(page_size) + " in database header"@
}

impl PageSizeError {
    /// The error in words.
    pub fn message(&self) -> (res: String)
        ensures
            res@ == page_size_error_text(self.page_size as nat),
    {
        let mut out: String = "Unexpected ESE page size ".to_owned();
        push_decimal(&mut out, self.page_size as u128);
        out.append(" in database header");
        out
    }
}

/// Whether a database can have pages of this size: a power of two from 4096 to 32768.
pub open spec fn is_page_size(n: int) -> bool {
    4096 <= n <= 32768 && exists|k: nat| n == #[trigger] pow2(k)
}

/// The page sizes there are.
pub proof fn page_sizes(n: int)
    ensures
        is_page_size(n) <==> n == 4096 || n == 8192 || n == 16384 || n == 32768,
{
    lemma2_to64();
    assert(pow2(12) == 4096 && pow2(13) == 8192 && pow2(14) == 16384 && pow2(15) == 32768);
    if is_page_size(n) {
        let k = choose|k: nat| n == #[trigger] pow2(k);
        if k < 12 {
            lemma_pow2_strictly_increases(k, 12);
        } else if k > 15 {
            lemma_pow2_strictly_increases(15, k);
        }
    }
}

/// Reads the page size from the header of a database file.
pub fn read_ese_page_size(header: &[u8]) -> (res: Result<usize, PageSizeError>)
    requires
        header@.len() >= HEADER_LEN,
    ensures
        match res {
            Ok(n) => n == le32(header@, PAGE_SIZE_OFFSET as int) && is_page_size(n as int),
            Err(e) => e.page_size == le32(header@, PAGE_SIZE_OFFSET as int) && !is_page_size(
                e.page_size as int,
            ),
        },
        res is Ok <==> ({
            let n = bytes_value(header@, 0xEC, 0xF0);
            n == 4096 || n == 8192 || n == 16384 || n == 32768
        }),
        res matches Ok(n) ==> n == bytes_value(header@, 0xEC, 0xF0),
        res matches Err(e) ==> e.page_size == bytes_value(header@, 0xEC, 0xF0),
{
    proof {
        numbers_hold_all_bytes(header@, 0xEC);
    }
    let page_size: u32 = read_le32(header, PAGE_SIZE_OFFSET);
    proof {
        page_sizes(page_size as int);
    }
    if page_size == 4096 || page_size == 8192 || page_size == 16384 || page_size == 32768 {
        Ok(page_size as usize)
    } else {
        Err(PageSizeError { page_size })
    }
}

/// The page size is read back from the error in words.
pub proof fn page_size_error_reads_back(page_size: nat)
    ensures
        exists|number: Seq<char>|
            is_numeral(number) && numeral_value(number) == page_size && page_size_error_text(
                page_size,
            ) == #[trigger] ("Unexpected ESE page size "@ + number + " in database header"@),
{
    decimal_reads_back(page_size);
    assert(page_size_error_text(page_size) == ("Unexpected ESE page size "@ + decimal(page_size)
        + " in database header"@));
}

} // verus!
