//! Energy meters: their measurements, their metadata, and which of them are PAC1954 meters.

use vstd::prelude::*;
use vstd::string::*;

use crate::bytes::{bytes_value, le16, numbers_hold_all_bytes, read_le16};
use crate::text::{
    ascii_lowered, contains_text, is_ascii_text, lowercase, occurs, to_lowercase,
};
use crate::utf16::{encoded, field_text, padded_field_reads_back, read_field_text, units_at};

verus! {

/// A channel of an energy meter.
#[derive(Debug, Clone)]
pub struct EmiDevice {
    pub path: String,
    pub oem: String,
    pub model: String,
    pub hw_revision: u16,
    pub channel_name: String,
    pub is_pac: bool,
}

/// What an [`EmiDevice`] stands for.
#[verifier::ext_equal]
pub struct EmiDeviceView {
    pub path: Seq<char>,
    pub oem: Seq<char>,
    pub model: Seq<char>,
    pub hw_revision: u16,
    pub channel_name: Seq<char>,
    pub is_pac: bool,
}

impl View for EmiDevice {
    type V = EmiDeviceView;

    open spec fn view(&self) -> EmiDeviceView {
        EmiDeviceView {
            path: self.path@,
            oem: self.oem@,
            model: self.model@,
            hw_revision: self.hw_revision,
            channel_name: self.channel_name@,
            is_pac: self.is_pac,
        }
    }
}

/// The views of a sequence of devices.
pub open spec fn device_views(devices: Seq<EmiDevice>) -> Seq<EmiDeviceView> {
    devices.map_values(|d: EmiDevice| d@)
}

/// A measurement: two counters that run up and wrap around at 64 bits.
#[derive(Debug, Clone, Copy, PartialEq, Eq, Structural)]
pub struct EmiMeasurement {
    /// Absolute energy in picowatt-hours.
    pub energy_pwh: u64,
    /// Absolute time in units of 100 nanoseconds.
    pub time_100ns: u64,
}

/// The average power over a time that is not zero: `energy_pwh` picowatt-hours in
/// `time_100ns` times 100 nanoseconds.
#[derive(Debug, Clone, Copy, PartialEq, Eq, Structural)]
pub struct PowerRatio {
    pub energy_pwh: u64,
    pub time_100ns: u64,
}

/// How far a 64-bit counter ran from `from` to `to`.
pub open spec fn counter_delta(to: u64, from: u64) -> u64 {
    ((to - from) % 0x1_0000_0000_0000_0000) as u64
}

/// The power between two measurements; without a value where no time has passed.
pub open spec fn power_between(now: EmiMeasurement, prev: EmiMeasurement) -> Option<PowerRatio> {
    if now.time_100ns == prev.time_100ns {
        None
    } else {
        Some(
            PowerRatio {
                energy_pwh: counter_delta(now.energy_pwh, prev.energy_pwh),
                time_100ns: counter_delta(now.time_100ns, prev.time_100ns),
            },
        )
    }
}

impl EmiMeasurement {
    /// The power since an earlier measurement. One watt is 1000 picowatt-hours in 36 times
    /// 100 nanoseconds; where no time has passed there is no value, and the power counts as
    /// zero.
    pub fn power_watts(&self, prev: &EmiMeasurement) -> (res: Option<PowerRatio>)
        ensures
            res == power_between(*self, *prev),
            res is None <==> self.time_100ns == prev.time_100ns,
            res matches Some(ratio) ==> (prev.energy_pwh + ratio.energy_pwh)
                % 0x1_0000_0000_0000_0000 == self.energy_pwh && (prev.time_100ns
                + ratio.time_100ns) % 0x1_0000_0000_0000_0000 == self.time_100ns,
            res matches Some(ratio) ==> ratio.time_100ns > 0,
    {
        let energy: u64 = self.energy_pwh.wrapping_sub(prev.energy_pwh);
        let time: u64 = self.time_100ns.wrapping_sub(prev.time_100ns);
        if time == 0 {
            return None;
        }
        Some(PowerRatio { energy_pwh: energy, time_100ns: time })
    }
}

/// A counter that ran on by `n` reads a difference of `n`, though it wrapped around.
pub proof fn delta_of_running_counter(from: u64, n: u64)
    ensures
        counter_delta(((from + n) % 0x1_0000_0000_0000_0000) as u64, from) == n,
{
}

/// The differences of adjacent readings add up to that of the outer ones, up to wrapping.
pub proof fn deltas_add_up(a: u64, b: u64, c: u64)
    ensures
        counter_delta(c, a) == (counter_delta(c, b) + counter_delta(b, a))
            % 0x1_0000_0000_0000_0000,
{
}

/// The size of the metadata up to the channel name.
pub const METADATA_LEN: usize = 72;

/// The manufacturer in metadata.
pub open spec fn metadata_oem(buf: Seq<u8>) -> Seq<char> {
    field_text(buf, 4, 16)
}

/// The model in metadata.
pub open spec fn metadata_model(buf: Seq<u8>) -> Seq<char> {
    field_text(buf, 36, 16)
}

/// The hardware revision in metadata.
pub open spec fn metadata_revision(buf: Seq<u8>) -> u16 {
    le16(buf, 68)
}

/// The channel name in metadata: as many bytes as announced, and empty if they are not there.
pub open spec fn metadata_name(buf: Seq<u8>) -> Seq<char> {
    let size = le16(buf, 70);
    if METADATA_LEN + size <= buf.len() {
        field_text(buf, METADATA_LEN as int, (size / 2) as nat)
    } else {
        Seq::empty()
    }
}

/// Reads manufacturer, model, hardware revision and channel name from metadata.
pub fn read_metadata(buf: &[u8]) -> (res: (String, String, u16, String))
    requires
        buf@.len() >= METADATA_LEN,
    ensures
        res.0@ == metadata_oem(buf@),
        res.1@ == metadata_model(buf@),
        res.2 == metadata_revision(buf@),
        res.3@ == metadata_name(buf@),
        res.2 == bytes_value(buf@, 68, 70),
        forall|s: Seq<char>| #[trigger] holds_text(buf@, 4, 16, s) ==> res.0@ == s,
        forall|s: Seq<char>| #[trigger] holds_text(buf@, 36, 16, s) ==> res.1@ == s,
        forall|s: Seq<char>|
            72 + bytes_value(buf@, 70, 72) <= buf@.len() && #[trigger] holds_text(
                buf@,
                72,
                (bytes_value(buf@, 70, 72) / 2) as nat,
                s,
            ) ==> res.3@ == s,
{
    proof {
        metadata_reads_back(buf@, Seq::empty());
        assert forall|s: Seq<char>| #[trigger] holds_text(buf@, 4, 16, s) implies metadata_oem(buf@)
            == s by {
            metadata_reads_back(buf@, s);
        }
        assert forall|s: Seq<char>| #[trigger]
            holds_text(buf@, 36, 16, s) implies metadata_model(buf@) == s by {
            metadata_reads_back(buf@, s);
        }
        assert forall|s: Seq<char>|
            72 + bytes_value(buf@, 70, 72) <= buf@.len() && #[trigger] holds_text(
                buf@,
                72,
                (bytes_value(buf@, 70, 72) / 2) as nat,
                s,
            ) implies metadata_name(buf@) == s by {
            metadata_reads_back(buf@, s);
        }
    }
    let oem = read_field_text(buf, 4, 16);
    let model = read_field_text(buf, 36, 16);
    let hw_rev: u16 = read_le16(buf, 68);
    let name_size: usize = read_le16(buf, 70) as usize;
    let name_chars: usize = name_size / 2;
    let name = if name_chars > 0 && METADATA_LEN + name_size <= buf.len() {
        read_field_text(buf, METADATA_LEN, name_chars)
    } else {
        proof {
            if name_chars == 0 {
                assert(units_at(buf@, METADATA_LEN as int, 0) =~= Seq::<u16>::empty());
            }
        }
        String::new()
    };
    (oem, model, hw_rev, name)
}

/// The part of a device path by which a PAC1954 meter is known.
pub const PAC_MARK: &'static str = "mchp1940";

/// Whether a device path in lowercase is that of a PAC1954 meter.
pub fn has_pac_mark(lower_path: &str) -> (res: bool)
    ensures
        res == occurs(PAC_MARK@, lower_path@),
{
    contains_text(lower_path, PAC_MARK)
}

/// Whether a device path is that of a PAC1954 meter, in upper or lower case.
pub open spec fn is_pac_path(path: Seq<char>) -> bool {
    occurs(PAC_MARK@, lowercase(path))
}

/// Tells whether a device path is that of a PAC1954 meter.
pub fn detect_pac(path: &str) -> (res: bool)
    ensures
        res == is_pac_path(path@),
        is_ascii_text(path@) ==> res == occurs("mchp1940"@, ascii_lowered(path@)),
{
    let lower = to_lowercase(path);
    has_pac_mark(lower.as_str())
}

/// The device at a path with this metadata.
pub open spec fn described_device(path: Seq<char>, metadata: Seq<u8>) -> EmiDeviceView {
    EmiDeviceView {
        path,
        oem: metadata_oem(metadata),
        model: metadata_model(metadata),
        hw_revision: metadata_revision(metadata),
        channel_name: metadata_name(metadata),
        is_pac: is_pac_path(path),
    }
}

/// Describes the device at a path by its metadata.
pub fn describe_device(path: &str, metadata: &[u8]) -> (res: EmiDevice)
    requires
        metadata@.len() >= METADATA_LEN,
    ensures
        res@ == described_device(path@, metadata@),
{
    let (oem, model, hw_revision, channel_name) = read_metadata(metadata);
    EmiDevice {
        path: path.to_owned(),
        oem,
        model,
        hw_revision,
        channel_name,
        is_pac: detect_pac(path),
    }
}

/// The power between two measurements leads from the one to the other: the counters of the
/// earlier one, run on by the differences, are those of the later one. There is no value exactly
/// where no time has passed.
pub proof fn powers_lead_on(now: EmiMeasurement, prev: EmiMeasurement)
    ensures
        power_between(now, prev) is None <==> now.time_100ns == prev.time_100ns,
        power_between(now, prev) matches Some(ratio) ==> {
            &&& (prev.energy_pwh + ratio.energy_pwh) % 0x1_0000_0000_0000_0000 == now.energy_pwh
            &&& (prev.time_100ns + ratio.time_100ns) % 0x1_0000_0000_0000_0000 == now.time_100ns
            &&& ratio.time_100ns > 0
        },
{
}

/// Whether a field of `count` units at byte `at` holds a text, filled up with zero units.
pub open spec fn holds_text(buf: Seq<u8>, at: int, count: nat, s: Seq<char>) -> bool {
    &&& encoded(s).len() <= count
    &&& units_at(buf, at, count) == encoded(s) + Seq::new(
        (count - encoded(s).len()) as nat,
        |i: int| 0u16,
    )
    &&& s.len() > 0 ==> s.last() != '\0'
}

/// What metadata holds is read back, whatever its length: manufacturer and model in fields of 16
/// units at bytes 4 and 36, the revision in two bytes at 68, and at byte 72 the channel name in
/// as many bytes as the two bytes at 70 announce.
pub proof fn metadata_reads_back(buf: Seq<u8>, s: Seq<char>)
    ensures
        holds_text(buf, 4, 16, s) ==> metadata_oem(buf) == s,
        holds_text(buf, 36, 16, s) ==> metadata_model(buf) == s,
        metadata_revision(buf) == bytes_value(buf, 68, 70),
        metadata_oem(buf) == field_text(buf, 4, 16),
        metadata_model(buf) == field_text(buf, 36, 16),
        ({
            let size = bytes_value(buf, 70, 72);
            &&& 72 + size <= buf.len() ==> metadata_name(buf) == field_text(
                buf,
                72,
                (size / 2) as nat,
            )
            &&& 72 + size <= buf.len() && holds_text(buf, 72, (size / 2) as nat, s)
                ==> metadata_name(buf) == s
            &&& 72 + size > buf.len() ==> metadata_name(buf).len() == 0
        }),
{
    numbers_hold_all_bytes(buf, 68);
    numbers_hold_all_bytes(buf, 70);
    if holds_text(buf, 4, 16, s) {
        padded_field_reads_back(buf, 4, 16, s);
    }
    if holds_text(buf, 36, 16, s) {
        padded_field_reads_back(buf, 36, 16, s);
    }
    let size = le16(buf, 70);
    if 72 + size <= buf.len() && holds_text(buf, 72, (size / 2) as nat, s) {
        padded_field_reads_back(buf, 72, (size / 2) as nat, s);
    }
}

/// A device is described by its own path and its own metadata.
pub proof fn device_reads_back(path: Seq<char>, buf: Seq<u8>, s: Seq<char>)
    ensures
        described_device(path, buf).path == path,
        described_device(path, buf).is_pac == occurs("mchp1940"@, lowercase(path)),
        described_device(path, buf).hw_revision == bytes_value(buf, 68, 70),
        holds_text(buf, 4, 16, s) ==> described_device(path, buf).oem == s,
        holds_text(buf, 36, 16, s) ==> described_device(path, buf).model == s,
        72 + bytes_value(buf, 70, 72) <= buf.len() && holds_text(
            buf,
            72,
            (bytes_value(buf, 70, 72) / 2) as nat,
            s,
        ) ==> described_device(path, buf).channel_name == s,
{
    metadata_reads_back(buf, s);
}

/// Devices are seen with all of their fields.
pub proof fn devices_are_seen_whole(d: EmiDevice)
    ensures
        d@.path == d.path@,
        d@.oem == d.oem@,
        d@.model == d.model@,
        d@.hw_revision == d.hw_revision,
        d@.channel_name == d.channel_name@,
        d@.is_pac == d.is_pac,
{
}

} // verus!
