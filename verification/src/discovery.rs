//! How energy meters are found: walking through the device interfaces, then asking each
//! device for its version and metadata.

use vstd::prelude::*;
use vstd::string::*;

use crate::emi::{
    describe_device, described_device, device_views, holds_text, EmiDevice, EmiDeviceView,
    METADATA_LEN,
};
use crate::text::{decimal, decimal_reads_back, is_numeral, numeral_value, push_decimal, texts};
use crate::utf16::{field_text, padded_field_reads_back, read_field_text};

verus! {

/// Where the path starts in the details of a device interface.
pub const PATH_OFFSET: usize = 4;

/// The device path in the details of a device interface.
pub open spec fn detail_path(detail: Seq<u8>) -> Seq<char> {
    field_text(detail, PATH_OFFSET as int, ((detail.len() - PATH_OFFSET) / 2) as nat)
}

/// Reads the device path from the details of a device interface.
pub fn path_in_detail(detail: &[u8]) -> (res: String)
    requires
        detail@.len() >= PATH_OFFSET,
    ensures
        res@ == detail_path(detail@),
{
    read_field_text(detail, PATH_OFFSET, (detail.len() - PATH_OFFSET) / 2)
}

/// The paths that the details of successive interfaces give; an interface without details is
/// passed over.
pub open spec fn found_paths(details: Seq<Option<Seq<u8>>>) -> Seq<Seq<char>>
    decreases details.len(),
{
    if details.len() == 0 {
        Seq::empty()
    } else {
        let before = found_paths(details.drop_last());
        match details.last() {
            Some(detail) => before.push(detail_path(detail)),
            None => before,
        }
    }
}

/// What to do next when the device interfaces are walked through.
#[derive(Debug, Clone, Copy, PartialEq, Eq, Structural)]
pub enum PathStep {
    /// Ask for the interface with this index.
    Interface(u32),
    /// Ask for the size of its details.
    Size,
    /// Ask for its details, of this size.
    Detail(u32),
    /// There are no more interfaces.
    Done,
}

/// The step after an interface was asked for: its size if it is there, the end if it is not.
pub open spec fn after_interface(found: bool) -> PathStep {
    if found {
        PathStep::Size
    } else {
        PathStep::Done
    }
}

/// A walk through the device interfaces, in progress.
pub struct PathEnumeration {
    step: PathStep,
    index: u32,
    paths: Vec<String>,
    details: Ghost<Seq<Option<Seq<u8>>>>,
}

/// Starts to walk through the device interfaces.
pub fn enumerate_emi_paths() -> (res: PathEnumeration)
    ensures
        res.next() == PathStep::Interface(0),
        res.seen_details().len() == 0,
{
    let paths: Vec<String> = Vec::new();
    let ghost none = Seq::<Option<Seq<u8>>>::empty();
    assert(texts(paths@) =~= found_paths(none));
    PathEnumeration { step: PathStep::Interface(0), index: 0, paths, details: Ghost(none) }
}

impl PathEnumeration {
    /// What to do next.
    pub closed spec fn next(&self) -> PathStep {
        self.step
    }

    /// The details of the interfaces that were passed, where there are any.
    pub closed spec fn seen_details(&self) -> Seq<Option<Seq<u8>>> {
        self.details@
    }

    #[verifier::type_invariant]
    closed spec fn holds_found_paths(&self) -> bool {
        &&& texts(self.paths@) == found_paths(self.details@)
        &&& self.details@.len() == self.index
        &&& self.step matches PathStep::Interface(index) ==> index == self.index
    }

    /// Tells what to do next: interfaces are asked for in the order of their index.
    pub fn step(&self) -> (res: PathStep)
        ensures
            res == self.next(),
            res matches PathStep::Interface(index) ==> index == self.seen_details().len(),
    {
        proof {
            use_type_invariant(self);
        }
        self.step
    }

    /// The interface is there, or there are no more.
    pub fn interface(self, found: bool) -> (res: PathEnumeration)
        requires
            self.next() is Interface,
        ensures
            res.next() == after_interface(found),
            res.next() == PathStep::Done <==> !found,
            res.seen_details() == self.seen_details(),
    {
        proof {
            use_type_invariant(&self);
        }
        let step = if found {
            PathStep::Size
        } else {
            PathStep::Done
        };
        PathEnumeration { step, index: self.index, paths: self.paths, details: self.details }
    }

    /// The details have this size; those of size zero are passed over.
    pub fn sized(self, size: u32) -> (res: PathEnumeration)
        requires
            self.next() == PathStep::Size,
            size == 0 ==> self.seen_details().len() < u32::MAX,
        ensures
            size > 0 ==> {
                &&& res.next() == PathStep::Detail(size)
                &&& res.seen_details() == self.seen_details()
            },
            size == 0 ==> {
                &&& res.seen_details() == self.seen_details().push(None)
                &&& res.next() == PathStep::Interface(res.seen_details().len() as u32)
            },
    {
        proof {
            use_type_invariant(&self);
        }
        if size > 0 {
            return PathEnumeration {
                step: PathStep::Detail(size),
                index: self.index,
                paths: self.paths,
                details: self.details,
            };
        }
        self.passed_over()
    }

    fn passed_over(self) -> (res: PathEnumeration)
        requires
            self.seen_details().len() < u32::MAX,
        ensures
            res.seen_details() == self.seen_details().push(None),
            res.next() == PathStep::Interface(res.seen_details().len() as u32),
    {
        proof {
            use_type_invariant(&self);
        }
        let ghost seen = self.details@;
        let ghost details = seen.push(None);
        proof {
            assert(details.drop_last() =~= seen);
        }
        PathEnumeration {
            step: PathStep::Interface(self.index + 1),
            index: self.index + 1,
            paths: self.paths,
            details: Ghost(details),
        }
    }

    /// These are the details, or they could not be had and the interface is passed over.
    pub fn detailed(self, detail: &Option<Vec<u8>>) -> (res: PathEnumeration)
        requires
            self.next() matches PathStep::Detail(size) && (detail matches Some(bytes)
                ==> bytes@.len() == size && size >= PATH_OFFSET),
            self.seen_details().len() < u32::MAX,
        ensures
            res.seen_details() == self.seen_details().push(
                match detail {
                    Some(bytes) => Some(bytes@),
                    None => None,
                },
            ),
            res.next() == PathStep::Interface(res.seen_details().len() as u32),
    {
        proof {
            use_type_invariant(&self);
        }
        match detail {
            Some(bytes) => {
                let ghost seen = self.details@;
                let ghost details = seen.push(Some(bytes@));
                let ghost before = self.paths@;
                let mut paths = self.paths;
                paths.push(path_in_detail(bytes.as_slice()));
                proof {
                    assert(details.drop_last() =~= seen);
                    assert(texts(paths@) =~= texts(before).push(paths@.last()@));
                }
                PathEnumeration {
                    step: PathStep::Interface(self.index + 1),
                    index: self.index + 1,
                    paths,
                    details: Ghost(details),
                }
            },
            None => self.passed_over(),
        }
    }

    /// The paths that were found.
    pub fn into_paths(self) -> (res: Vec<String>)
        ensures
            texts(res@) == found_paths(self.seen_details()),
    {
        proof {
            use_type_invariant(&self);
        }
        self.paths
    }
}

/// The devices that the first paths lead to, given their metadata; a path that could not be
/// opened leads to none.
pub open spec fn found_devices(
    paths: Seq<Seq<char>>,
    probes: Seq<Option<Seq<u8>>>,
) -> Seq<EmiDeviceView>
    decreases probes.len(),
{
    if probes.len() == 0 {
        Seq::empty()
    } else {
        let before = found_devices(paths, probes.drop_last());
        match probes.last() {
            Some(metadata) => before.push(
                described_device(paths[probes.len() - 1], metadata),
            ),
            None => before,
        }
    }
}

/// What to do next when the devices are asked.
#[derive(Debug, Clone, Copy, PartialEq, Eq, Structural)]
pub enum DiscoveryStep {
    /// Open the device at the path with this index.
    Open(usize),
    /// Ask for its version.
    ReadVersion,
    /// Ask for its metadata.
    ReadMetadata,
    /// Give up: this version of the interface is not supported.
    Unsupported(u16),
    /// All devices are described.
    Done,
}

/// The step after a version: its device is asked for metadata from version 1 on.
pub open spec fn after_version(version: u16) -> DiscoveryStep {
    if version < 1 {
        DiscoveryStep::Unsupported(version)
    } else {
        DiscoveryStep::ReadMetadata
    }
}

/// The error of a device with an unsupported version, in words.
pub open spec fn unsupported_text(version: nat, path: Seq<char>) -> Seq<char> {
    "Unsupported EMI version "@ + decimal(version) + " for "@ + path
}

/// A description of all devices, in progress.
pub struct Discovery {
    step: DiscoveryStep,
    paths: Vec<String>,
    at: usize,
    devices: Vec<EmiDevice>,
    probes: Ghost<Seq<Option<Seq<u8>>>>,
}

/// The step after this many of `total` devices.
pub open spec fn after_device(done: nat, total: nat) -> DiscoveryStep {
    if done < total {
        DiscoveryStep::Open(done as usize)
    } else {
        DiscoveryStep::Done
    }
}

fn step_after_device(done: usize, total: usize) -> (res: DiscoveryStep)
    ensures
        res == after_device(done as nat, total as nat),
{
    if done < total {
        DiscoveryStep::Open(done)
    } else {
        DiscoveryStep::Done
    }
}

/// Starts to describe the devices at these paths.
pub fn discover_devices(paths: Vec<String>) -> (res: Discovery)
    ensures
        res.path_list() == texts(paths@),
        res.next() == after_device(0, paths@.len()),
        res.seen_probes().len() == 0,
{
    let devices: Vec<EmiDevice> = Vec::new();
    let ghost none = Seq::<Option<Seq<u8>>>::empty();
    assert(device_views(devices@) =~= found_devices(texts(paths@), none));
    let step = step_after_device(0, paths.len());
    Discovery { step, paths, at: 0, devices, probes: Ghost(none) }
}

impl Discovery {
    /// The paths of the devices.
    pub closed spec fn path_list(&self) -> Seq<Seq<char>> {
        texts(self.paths@)
    }

    /// What to do next.
    pub closed spec fn next(&self) -> DiscoveryStep {
        self.step
    }

    /// The metadata of the devices that were asked, where they could be opened.
    pub closed spec fn seen_probes(&self) -> Seq<Option<Seq<u8>>> {
        self.probes@
    }

    #[verifier::type_invariant]
    closed spec fn holds_found_devices(&self) -> bool {
        &&& device_views(self.devices@) == found_devices(texts(self.paths@), self.probes@)
        &&& self.probes@.len() == self.at <= self.paths@.len()
        &&& match self.step {
            DiscoveryStep::Open(index) => index == self.at < self.paths@.len(),
            DiscoveryStep::Done => self.at == self.paths@.len(),
            _ => self.at < self.paths@.len(),
        }
    }

    /// Tells what to do next: paths are taken in their order, until all are through.
    pub fn step(&self) -> (res: DiscoveryStep)
        ensures
            res == self.next(),
            res matches DiscoveryStep::Open(index) ==> index == self.seen_probes().len(),
            res == DiscoveryStep::Done ==> self.seen_probes().len() == self.path_list().len(),
    {
        proof {
            use_type_invariant(self);
        }
        self.step
    }

    /// The path of the device that is asked.
    pub fn path(&self) -> (res: &str)
        requires
            self.next() != DiscoveryStep::Done,
        ensures
            self.seen_probes().len() < self.path_list().len(),
            res@ == self.path_list()[self.seen_probes().len() as int],
    {
        proof {
            use_type_invariant(self);
        }
        self.paths[self.at].as_str()
    }

    /// The device was opened, or could not be and is passed over.
    pub fn opened(self, is_open: bool) -> (res: Discovery)
        requires
            self.next() is Open,
        ensures
            res.path_list() == self.path_list(),
            is_open ==> {
                &&& res.next() == DiscoveryStep::ReadVersion
                &&& res.seen_probes() == self.seen_probes()
            },
            !is_open ==> {
                &&& res.seen_probes() == self.seen_probes().push(None)
                &&& res.next() == after_device(res.seen_probes().len(), self.path_list().len())
            },
    {
        proof {
            use_type_invariant(&self);
        }
        if is_open {
            return Discovery {
                step: DiscoveryStep::ReadVersion,
                paths: self.paths,
                at: self.at,
                devices: self.devices,
                probes: self.probes,
            };
        }
        let ghost seen = self.probes@;
        let ghost probes = seen.push(None);
        proof {
            assert(probes.drop_last() =~= seen);
        }
        let total: usize = self.paths.len();
        let at: usize = self.at + 1;
        let step = step_after_device(at, total);
        Discovery { step, paths: self.paths, at, devices: self.devices, probes: Ghost(probes) }
    }

    /// The device has this version of the interface.
    pub fn version(self, version: u16) -> (res: Discovery)
        requires
            self.next() == DiscoveryStep::ReadVersion,
        ensures
            res.path_list() == self.path_list(),
            res.seen_probes() == self.seen_probes(),
            res.next() == after_version(version),
    {
        proof {
            use_type_invariant(&self);
        }
        let step = if version < 1 {
            DiscoveryStep::Unsupported(version)
        } else {
            DiscoveryStep::ReadMetadata
        };
        Discovery {
            step,
            paths: self.paths,
            at: self.at,
            devices: self.devices,
            probes: self.probes,
        }
    }

    /// The device has this metadata.
    pub fn metadata(self, buf: &[u8]) -> (res: Discovery)
        requires
            self.next() == DiscoveryStep::ReadMetadata,
            buf@.len() >= METADATA_LEN,
        ensures
            res.path_list() == self.path_list(),
            res.seen_probes() == self.seen_probes().push(Some(buf@)),
            res.next() == after_device(res.seen_probes().len(), self.path_list().len()),
    {
        proof {
            use_type_invariant(&self);
        }
        let ghost seen = self.probes@;
        let ghost probes = seen.push(Some(buf@));
        let ghost before = self.devices@;
        let device = describe_device(self.paths[self.at].as_str(), buf);
        let mut devices = self.devices;
        devices.push(device);
        proof {
            assert(probes.drop_last() =~= seen);
            assert(device_views(devices@) =~= device_views(before).push(devices@.last()@));
        }
        let total: usize = self.paths.len();
        let at: usize = self.at + 1;
        let step = step_after_device(at, total);
        Discovery { step, paths: self.paths, at, devices, probes: Ghost(probes) }
    }

    /// The error of a device with an unsupported version, in words.
    pub fn unsupported_message(&self) -> (res: String)
        requires
            self.next() is Unsupported,
        ensures
            self.next() matches DiscoveryStep::Unsupported(version) && res@ == unsupported_text(
                version as nat,
                self.path_list()[self.seen_probes().len() as int],
            ),
    {
        proof {
            use_type_invariant(self);
        }
        let version: u16 = match self.step {
            DiscoveryStep::Unsupported(version) => version,
            _ => 0,
        };
        let mut out: String = "Unsupported EMI version ".to_owned();
        push_decimal(&mut out, version as u128);
        out.append(" for ");
        out.append(self.paths[self.at].as_str());
        out
    }

    /// The devices that were found.
    pub fn into_devices(self) -> (res: Vec<EmiDevice>)
        ensures
            device_views(res@) == found_devices(self.path_list(), self.seen_probes()),
    {
        proof {
            use_type_invariant(&self);
        }
        self.devices
    }
}

/// The indices at which something was read, in ascending order.
pub open spec fn present_indices(probes: Seq<Option<Seq<u8>>>) -> Seq<int>
    decreases probes.len(),
{
    if probes.len() == 0 {
        Seq::empty()
    } else if probes.last() is Some {
        present_indices(probes.drop_last()).push(probes.len() - 1)
    } else {
        present_indices(probes.drop_last())
    }
}

/// The devices that are found are exactly those that could be opened, in the order of their
/// paths, each described by its own path and metadata.
pub proof fn devices_follow_paths(paths: Seq<Seq<char>>, probes: Seq<Option<Seq<u8>>>)
    ensures
        found_devices(paths, probes).len() == present_indices(probes).len(),
        forall|k: int|
            0 <= k < present_indices(probes).len() ==> {
                let i = #[trigger] present_indices(probes)[k];
                &&& 0 <= i < probes.len()
                &&& probes[i] is Some
                &&& found_devices(paths, probes)[k] == described_device(paths[i], probes[i]->0)
            },
        forall|j: int, k: int|
            0 <= j < k < present_indices(probes).len() ==> #[trigger] present_indices(probes)[j]
                < #[trigger] present_indices(probes)[k],
        forall|i: int|
            0 <= i < probes.len() && #[trigger] probes[i] is Some ==> present_indices(
                probes,
            ).contains(i),
    decreases probes.len(),
{
    if probes.len() > 0 {
        let init = probes.drop_last();
        let n = probes.len() - 1;
        let indices = present_indices(probes);
        let before = present_indices(init);
        devices_follow_paths(paths, init);
        assert forall|k: int| 0 <= k < indices.len() implies {
            let i = #[trigger] indices[k];
            &&& 0 <= i < probes.len()
            &&& probes[i] is Some
            &&& found_devices(paths, probes)[k] == described_device(paths[i], probes[i]->0)
        } by {
            if k < before.len() {
                assert(indices[k] == before[k]);
                assert(init[before[k]] == probes[before[k]]);
            }
        }
        assert forall|i: int| 0 <= i < probes.len() && #[trigger] probes[i] is Some implies
            indices.contains(i) by {
            if i < n {
                assert(init[i] == probes[i]);
                let k = choose|k: int| 0 <= k < before.len() && before[k] == i;
                assert(indices[k] == i);
            } else {
                assert(indices.last() == i);
            }
        }
    }
}

/// The paths that are found are exactly those of the interfaces with details, in the order of
/// the interfaces.
pub proof fn paths_follow_interfaces(details: Seq<Option<Seq<u8>>>)
    ensures
        found_paths(details).len() == present_indices(details).len(),
        forall|k: int|
            0 <= k < present_indices(details).len() ==> {
                let i = #[trigger] present_indices(details)[k];
                &&& 0 <= i < details.len()
                &&& details[i] is Some
                &&& found_paths(details)[k] == detail_path(details[i]->0)
            },
        forall|j: int, k: int|
            0 <= j < k < present_indices(details).len() ==> #[trigger] present_indices(details)[j]
                < #[trigger] present_indices(details)[k],
        forall|i: int|
            0 <= i < details.len() && #[trigger] details[i] is Some ==> present_indices(
                details,
            ).contains(i),
    decreases details.len(),
{
    if details.len() > 0 {
        let init = details.drop_last();
        let n = details.len() - 1;
        let indices = present_indices(details);
        let before = present_indices(init);
        paths_follow_interfaces(init);
        assert forall|k: int| 0 <= k < indices.len() implies {
            let i = #[trigger] indices[k];
            &&& 0 <= i < details.len()
            &&& details[i] is Some
            &&& found_paths(details)[k] == detail_path(details[i]->0)
        } by {
            if k < before.len() {
                assert(indices[k] == before[k]);
                assert(init[before[k]] == details[before[k]]);
            }
        }
        assert forall|i: int| 0 <= i < details.len() && #[trigger] details[i] is Some implies
            indices.contains(i) by {
            if i < n {
                assert(init[i] == details[i]);
                let k = choose|k: int| 0 <= k < before.len() && before[k] == i;
                assert(indices[k] == i);
            } else {
                assert(indices.last() == i);
            }
        }
    }
}

/// A path is read back from the details of its interface, whatever its length: it stands behind
/// the first four bytes, up to the end or up to zero units.
pub proof fn path_reads_back(detail: Seq<u8>, path: Seq<char>)
    requires
        detail.len() >= 4,
        holds_text(detail, 4, ((detail.len() - 4) / 2) as nat, path),
    ensures
        detail_path(detail) == path,
{
    padded_field_reads_back(detail, 4, ((detail.len() - 4) / 2) as nat, path);
}

/// Devices are opened one after the other, and none is left out before the end.
pub proof fn devices_are_taken_in_order(done: nat, total: nat)
    requires
        total <= usize::MAX,
    ensures
        after_device(done, total) == DiscoveryStep::Done <==> done >= total,
        done < total ==> (after_device(done, total) matches DiscoveryStep::Open(index) && index
            == done),
{
}

/// Every version but zero is supported, and every interface that is there is asked for details.
pub proof fn only_version_zero_is_refused(version: u16, found: bool)
    ensures
        after_version(version) == DiscoveryStep::ReadMetadata <==> version != 0,
        after_version(version) is Unsupported <==> version == 0,
        after_interface(found) == PathStep::Size <==> found,
        after_interface(found) == PathStep::Done <==> !found,
{
}

/// The error of a device names its own version and path.
pub proof fn unsupported_reads_back(version: nat, path: Seq<char>)
    ensures
        exists|number: Seq<char>|
            is_numeral(number) && numeral_value(number) == version && unsupported_text(version, path)
                == #[trigger] ("Unsupported EMI version "@ + number + " for "@ + path),
{
    decimal_reads_back(version);
    assert(unsupported_text(version, path) == ("Unsupported EMI version "@ + decimal(version)
        + " for "@ + path));
}

/// A path is the field behind the first four bytes of the details, up to their end.
pub proof fn paths_stand_behind_four_bytes(detail: Seq<u8>)
    requires
        detail.len() >= 4,
    ensures
        detail_path(detail) == field_text(detail, 4, ((detail.len() - 4) / 2) as nat),
{
}

} // verus!
