//! Printers found on the network and among device files.
use crate::paths::{path_before, path_less, path_parts, paths_are_ordered};
use crate::text::{characters, dec, dec_text, digit_char, hex, hex_text};
use crate::text_map::{ascending, text_less, TextMap};
use vstd::prelude::*;

verus! {

/// Where a device is.
#[derive(Clone, Debug, PartialEq, Eq)]
pub enum DeviceLocation {
    Network { address: String },
    DeviceFile(String),
    Usb,
}

/// A device that can be selected.
#[derive(Clone, Debug, PartialEq, Eq)]
pub struct DiscoveredDevice {
    pub display_name: String,
    pub location: DeviceLocation,
}

/// Where a device is.
pub enum LocationView {
    Network { address: Seq<char> },
    DeviceFile(Seq<char>),
    Usb,
}

/// The contents of a device.
pub struct DeviceView {
    pub display_name: Seq<char>,
    pub location: LocationView,
}

impl View for DeviceLocation {
    type V = LocationView;

    open spec fn view(&self) -> LocationView {
        match *self {
            DeviceLocation::Network { address } => LocationView::Network { address: address@ },
            DeviceLocation::DeviceFile(path) => LocationView::DeviceFile(path@),
            DeviceLocation::Usb => LocationView::Usb,
        }
    }
}

impl View for DiscoveredDevice {
    type V = DeviceView;

    open spec fn view(&self) -> DeviceView {
        DeviceView { display_name: self.display_name@, location: self.location@ }
    }
}

/// The contents of several devices.
pub open spec fn device_views(devices: Seq<DiscoveredDevice>) -> Seq<DeviceView> {
    Seq::new(devices.len(), |i: int| devices[i]@)
}

/// A failed discovery.
#[derive(Clone, Debug, PartialEq, Eq)]
pub enum DiscoveryError {
    Failed { operation: &'static str, message: String },
}

impl DiscoveryError {
    /// Describes the error.
    pub fn message(&self) -> (text: String)
        ensures
            match *self {
                DiscoveryError::Failed { operation, message } => text@ == operation@ + ": "@
                    + message@,
            },
    {
        match self {
            DiscoveryError::Failed { operation, message } => String::from_str(operation).concat(
                ": ",
            ).concat(message.as_str()),
        }
    }
}

/// The service types of printers.
pub fn printer_service_types() -> (types: Vec<&'static str>)
    ensures
        types@ == seq!["_ipp._tcp.local.", "_ipps._tcp.local.", "_printer._tcp.local."],
{
    vec!["_ipp._tcp.local.", "_ipps._tcp.local.", "_printer._tcp.local."]
}

/// The directories in which device files of printers stand.
pub fn printer_directories() -> (directories: Vec<&'static str>)
    ensures
        directories@ == seq!["/dev", "/dev/usb"],
{
    vec!["/dev", "/dev/usb"]
}

/// An IP address: its bytes, four or sixteen of them, and its text.
#[derive(Clone, Debug, PartialEq, Eq)]
pub struct IpAddress {
    pub octets: Vec<u8>,
    pub text: String,
}

/// The text of a socket address.
pub open spec fn socket_text(address: IpAddress, port: u16) -> Seq<char> {
    if address.octets@.len() == 4 {
        address.text@ + ":"@ + dec_text(port as nat)
    } else {
        "["@ + address.text@ + "]:"@ + dec_text(port as nat)
    }
}

/// The digits of bytes, by which they are ordered.
pub open spec fn octets_key(octets: Seq<u8>) -> Seq<char>
    decreases octets.len(),
{
    if octets.len() == 0 {
        seq![]
    } else {
        octets_key(octets.drop_last()) + hex_text(octets.last() as nat, 2, false)
    }
}

/// A text by which socket addresses are ordered: first by the length of the
/// address, and then by its bytes and by the port.
pub open spec fn socket_key(octets: Seq<u8>, port: u16) -> Seq<char> {
    seq![
        if octets.len() == 4 {
            '4'
        } else {
            '6'
        },
    ] + octets_key(octets) + hex_text(port as nat, 4, false)
}

fn socket_order(address: &IpAddress, port: u16) -> (key: String)
    ensures
        key@ == socket_key(address.octets@, port),
{
    let mut key = String::new();
    if address.octets.len() == 4 {
        key.push('4');
    } else {
        key.push('6');
    }
    let mut index: usize = 0;
    let ghost front = key@;
    proof {
        assert(address.octets@.take(0) =~= seq![]);
        assert(key@ =~= front + octets_key(address.octets@.take(0)));
    }
    while index < address.octets.len()
        invariant
            index <= address.octets@.len(),
            key@ == front + octets_key(address.octets@.take(index as int)),
        decreases address.octets.len() - index,
    {
        key.append(hex(address.octets[index] as u64, 2, false).as_str());
        proof {
            let longer = address.octets@.take(index + 1);
            assert(longer.drop_last() =~= address.octets@.take(index as int));
            assert(key@ =~= front + octets_key(longer));
        }
        index = index + 1;
    }
    proof {
        assert(address.octets@.take(index as int) =~= address.octets@);
    }
    key.append(hex(port as u64, 4, false).as_str());
    proof {
        assert(key@ =~= socket_key(address.octets@, port));
    }
    key
}

/// The device at an address of a service.
pub open spec fn service_device(name: Seq<char>, port: u16, address: IpAddress) -> DeviceView {
    DeviceView {
        display_name: name,
        location: LocationView::Network { address: socket_text(address, port) },
    }
}

/// Makes a device for each address of a resolved service, and the text by which
/// it is ordered.
pub fn devices_for_service(name: &str, port: u16, addresses: &[IpAddress]) -> (devices: Vec<
    (String, DiscoveredDevice),
>)
    ensures
        devices@.len() == addresses@.len(),
        forall|i: int|
            0 <= i < devices@.len() ==> (#[trigger] devices@[i]).0@ == socket_key(
                addresses@[i].octets@,
                port,
            ) && devices@[i].1@ == service_device(name@, port, addresses@[i]),
{
    let mut devices: Vec<(String, DiscoveredDevice)> = Vec::new();
    while devices.len() < addresses.len()
        invariant
            devices@.len() <= addresses@.len(),
            forall|i: int|
                0 <= i < devices@.len() ==> (#[trigger] devices@[i]).0@ == socket_key(
                    addresses@[i].octets@,
                    port,
                ) && devices@[i].1@ == service_device(name@, port, addresses@[i]),
        decreases addresses.len() - devices.len(),
    {
        let address = &addresses[devices.len()];
        let text = if address.octets.len() == 4 {
            address.text.as_str().to_owned().concat(":").concat(dec(port as u64).as_str())
        } else {
            String::from_str("[").concat(address.text.as_str()).concat("]:").concat(
                dec(port as u64).as_str(),
            )
        };
        devices.push(
            (
                socket_order(address, port),
                DiscoveredDevice {
                    display_name: name.to_owned(),
                    location: DeviceLocation::Network { address: text },
                },
            ),
        );
    }
    devices
}

/// The devices found so far, one for each socket address.
pub struct DeviceRegistry {
    pub devices: TextMap<DiscoveredDevice>,
}

/// The devices of a registry with those of a service: a later one takes the
/// place of an earlier one at the same address.
pub open spec fn registered(
    devices: Map<Seq<char>, DeviceView>,
    name: Seq<char>,
    port: u16,
    addresses: Seq<IpAddress>,
) -> Map<Seq<char>, DeviceView>
    decreases addresses.len(),
{
    if addresses.len() == 0 {
        devices
    } else {
        registered(devices, name, port, addresses.drop_last()).insert(
            socket_key(addresses.last().octets@, port),
            service_device(name, port, addresses.last()),
        )
    }
}

impl View for DeviceRegistry {
    type V = Map<Seq<char>, DeviceView>;

    open spec fn view(&self) -> Map<Seq<char>, DeviceView> {
        self.devices@.map_values(|device: DiscoveredDevice| device@)
    }
}

impl DeviceRegistry {
    /// The devices are in the order of their addresses.
    pub open spec fn well_formed(&self) -> bool {
        self.devices.well_formed()
    }

    /// A registry without devices.
    pub fn new() -> (registry: Self)
        ensures
            registry.well_formed(),
            registry@ == Map::<Seq<char>, DeviceView>::empty(),
    {
        let registry = DeviceRegistry { devices: TextMap::new() };
        proof {
            assert(registry@ =~= Map::<Seq<char>, DeviceView>::empty());
        }
        registry
    }

    /// Records the devices of a resolved service.
    pub fn resolve(&mut self, name: &str, port: u16, addresses: &[IpAddress])
        requires
            old(self).well_formed(),
        ensures
            final(self).well_formed(),
            final(self)@ == registered(old(self)@, name@, port, addresses@),
    {
        let mut found = devices_for_service(name, port, addresses);
        let ghost expected = found@;
        let mut index: usize = 0;
        proof {
            assert(addresses@.take(0) =~= seq![]);
        }
        while index < addresses.len()
            invariant
                index <= addresses@.len(),
                self.well_formed(),
                found@ == expected.skip(index as int),
                expected.len() == addresses@.len(),
                forall|i: int|
                    0 <= i < expected.len() ==> (#[trigger] expected[i]).0@ == socket_key(
                        addresses@[i].octets@,
                        port,
                    ) && expected[i].1@ == service_device(name@, port, addresses@[i]),
                self@ == registered(old(self)@, name@, port, addresses@.take(index as int)),
            decreases addresses.len() - index,
        {
            let ghost before = self@;
            let (key, device) = found.remove(0);
            proof {
                assert(expected.skip(index as int)[0] == expected[index as int]);
                assert(found@ =~= expected.skip(index + 1));
                assert(addresses@.take(index + 1).drop_last() =~= addresses@.take(index as int));
            }
            self.devices.insert(key, device);
            proof {
                assert(self@ =~= before.insert(key@, device@));
            }
            index = index + 1;
        }
        proof {
            assert(addresses@.take(index as int) =~= addresses@);
        }
    }

    /// The devices, in the order of their addresses.
    pub fn devices(&self) -> (devices: Vec<DiscoveredDevice>)
        requires
            self.well_formed(),
        ensures
            exists|keys: Seq<Seq<char>>|
                #![trigger ascending(keys)]
                ascending(keys) && (forall|key: Seq<char>| #[trigger]
                    keys.contains(key) <==> self@.contains_key(key)) && device_views(devices@)
                    == Seq::new(keys.len(), |i: int| self@[keys[i]]),
    {
        let mut devices: Vec<DiscoveredDevice> = Vec::new();
        let ghost keys = self.devices.key_texts();
        while devices.len() < self.devices.len()
            invariant
                self.well_formed(),
                keys == self.devices.key_texts(),
                devices@.len() <= keys.len(),
                forall|i: int|
                    0 <= i < devices@.len() ==> (#[trigger] devices@[i])@ == self@[keys[i]],
            decreases keys.len() - devices@.len(),
        {
            let (key, device) = self.devices.entry(devices.len());
            devices.push(device.duplicate());
        }
        proof {
            self.devices.lemma_keys();
            assert(ascending(keys));
            assert(device_views(devices@) =~= Seq::new(keys.len(), |i: int| self@[keys[i]]));
        }
        devices
    }
}

impl DiscoveredDevice {
    /// A copy of the device.
    pub fn duplicate(&self) -> (copy: Self)
        ensures
            copy@ == self@,
    {
        let location = match &self.location {
            DeviceLocation::Network { address } => DeviceLocation::Network {
                address: address.clone(),
            },
            DeviceLocation::DeviceFile(path) => DeviceLocation::DeviceFile(path.clone()),
            DeviceLocation::Usb => DeviceLocation::Usb,
        };
        DiscoveredDevice { display_name: self.display_name.clone(), location }
    }
}

/// The name of a printer's device file: `lp` and a number.
pub open spec fn printer_device_name(name: Seq<char>) -> bool {
    &&& name.len() > 2
    &&& name[0] == 'l'
    &&& name[1] == 'p'
    &&& forall|i: int| 2 <= i < name.len() ==> '0' <= #[trigger] name[i] <= '9'
}

/// Whether a name is that of a printer's device file.
pub fn is_printer_device_name(name: &str) -> (printer: bool)
    ensures
        printer == printer_device_name(name@),
{
    let chars = characters(name);
    if chars.len() <= 2 || chars[0] != 'l' || chars[1] != 'p' {
        return false;
    }
    let mut index: usize = 2;
    while index < chars.len()
        invariant
            2 <= index <= chars@.len(),
            chars@ == name@,
            forall|i: int| 2 <= i < index ==> '0' <= #[trigger] chars@[i] <= '9',
        decreases chars.len() - index,
    {
        if chars[index] < '0' || chars[index] > '9' {
            return false;
        }
        index = index + 1;
    }
    true
}

/// An entry of a device directory.
pub struct DirectoryEntry {
    pub name: String,
    pub path: String,
    pub is_char_device: bool,
}

/// The entry is a printer that can be selected.
pub open spec fn selectable(entry: DirectoryEntry) -> bool {
    printer_device_name(entry.name@) && entry.is_char_device
}

/// The device at a path.
pub open spec fn file_device(path: Seq<char>) -> DeviceView {
    DeviceView { display_name: path, location: LocationView::DeviceFile(path) }
}

/// Makes a device of a path.
pub fn device_for_path(path: String) -> (device: DiscoveredDevice)
    ensures
        device@ == file_device(path@),
{
    DiscoveredDevice { display_name: path.clone(), location: DeviceLocation::DeviceFile(path) }
}

/// No printer with the same path stands earlier among the entries.
pub open spec fn first_of_its_path(entries: Seq<DirectoryEntry>, index: int) -> bool {
    forall|earlier: int|
        0 <= earlier < index && selectable(#[trigger] entries[earlier]) ==> path_parts(
            entries[earlier].path@,
        ) != path_parts(entries[index].path@)
}

/// One of the entries at some positions has the same path as another entry.
pub open spec fn path_listed(
    entries: Seq<DirectoryEntry>,
    positions: Seq<usize>,
    index: int,
) -> bool {
    exists|i: int|
        0 <= i < positions.len() && path_parts(
            entries[#[trigger] positions[i] as int].path@,
        ) == path_parts(entries[index].path@)
}

/// The positions are those of the printers among the first entries: each path
/// once, where it stands first, and in the order of the paths.
pub open spec fn files_listed(
    entries: Seq<DirectoryEntry>,
    count: int,
    positions: Seq<usize>,
) -> bool {
    &&& forall|i: int|
        0 <= i < positions.len() ==> {
            &&& #[trigger] positions[i] < count
            &&& selectable(entries[positions[i] as int])
            &&& first_of_its_path(entries, positions[i] as int)
        }
    &&& forall|i: int, j: int|
        0 <= i < j < positions.len() ==> path_less(
            entries[#[trigger] positions[i] as int].path@,
            entries[#[trigger] positions[j] as int].path@,
        )
    &&& forall|index: int|
        0 <= index < count && selectable(#[trigger] entries[index]) ==> path_listed(
            entries,
            positions,
            index,
        )
}

/// Lists the printers among the entries of device directories: each path once,
/// as it was found first, in the order of the paths.
pub fn device_files(entries: &[DirectoryEntry]) -> (devices: Vec<DiscoveredDevice>)
    ensures
        exists|positions: Seq<usize>| #[trigger]
            files_listed(entries@, entries@.len() as int, positions) && device_views(devices@)
                == Seq::new(
                positions.len(),
                |i: int| file_device(entries@[positions[i] as int].path@),
            ),
{
    let mut positions: Vec<usize> = Vec::new();
    let mut index: usize = 0;
    while index < entries.len()
        invariant
            index <= entries@.len(),
            files_listed(entries@, index as int, positions@),
        decreases entries.len() - index,
    {
        list_file(entries, index, &mut positions);
        index = index + 1;
    }
    let mut devices: Vec<DiscoveredDevice> = Vec::new();
    while devices.len() < positions.len()
        invariant
            files_listed(entries@, entries@.len() as int, positions@),
            devices@.len() <= positions@.len(),
            forall|i: int|
                0 <= i < devices@.len() ==> (#[trigger] devices@[i])@ == file_device(
                    entries@[positions@[i] as int].path@,
                ),
        decreases positions.len() - devices.len(),
    {
        let position: usize = positions[devices.len()];
        devices.push(device_for_path(entries[position].path.clone()));
    }
    proof {
        assert(device_views(devices@) =~= Seq::new(
            positions@.len(),
            |i: int| file_device(entries@[positions@[i] as int].path@),
        ));
    }
    devices
}

fn list_file(entries: &[DirectoryEntry], index: usize, positions: &mut Vec<usize>)
    requires
        index < entries@.len(),
        files_listed(entries@, index as int, old(positions)@),
    ensures
        files_listed(entries@, index + 1, final(positions)@),
{
    let entry = &entries[index];
    if !is_printer_device_name(entry.name.as_str()) || !entry.is_char_device {
        return;
    }
    let ghost before = positions@;
    let mut place: usize = 0;
    while place < positions.len() && path_before(
        entries[positions[place]].path.as_str(),
        entry.path.as_str(),
    )
        invariant
            index < entries@.len(),
            *entry == entries@[index as int],
            positions@ == before,
            place <= before.len(),
            files_listed(entries@, index as int, before),
            forall|i: int|
                0 <= i < place ==> path_less(
                    entries@[#[trigger] before[i] as int].path@,
                    entry.path@,
                ),
        decreases before.len() - place,
    {
        place = place + 1;
    }
    let taken: bool = place < positions.len() && !path_before(
        entry.path.as_str(),
        entries[positions[place]].path.as_str(),
    );
    if taken {
        proof {
            paths_are_ordered(
                entry.path@,
                entries@[before[place as int] as int].path@,
                entry.path@,
            );
            assert(path_listed(entries@, before, index as int));
        }
    } else {
        positions.insert(place, index);
        proof {
            lemma_file_inserted(entries@, index, before, place as int);
            assert(positions@ =~= before.insert(place as int, index));
        }
    }
}

proof fn lemma_file_inserted(
    entries: Seq<DirectoryEntry>,
    index: usize,
    before: Seq<usize>,
    place: int,
)
    requires
        index < entries.len(),
        selectable(entries[index as int]),
        files_listed(entries, index as int, before),
        0 <= place <= before.len(),
        forall|i: int|
            0 <= i < place ==> path_less(
                entries[#[trigger] before[i] as int].path@,
                entries[index as int].path@,
            ),
        place < before.len() ==> path_less(
            entries[index as int].path@,
            entries[before[place] as int].path@,
        ),
    ensures
        files_listed(entries, index + 1, before.insert(place, index)),
{
    let after = before.insert(place, index);
    let path = entries[index as int].path@;
    assert forall|i: int| place <= i < before.len() implies path_less(
        path,
        entries[#[trigger] before[i] as int].path@,
    ) by {
        if i > place {
            paths_are_ordered(
                path,
                entries[before[place] as int].path@,
                entries[before[i] as int].path@,
            );
        }
    }
    assert forall|i: int| 0 <= i < after.len() implies #[trigger] after[i] == if i < place {
        before[i]
    } else if i == place {
        index
    } else {
        before[i - 1]
    } by {}
    assert(first_of_its_path(entries, index as int)) by {
        assert forall|earlier: int|
            0 <= earlier < index && selectable(#[trigger] entries[earlier]) implies path_parts(
            entries[earlier].path@,
        ) != path_parts(path) by {
            assert(path_listed(entries, before, earlier));
            let i = choose|i: int|
                0 <= i < before.len() && path_parts(
                    entries[#[trigger] before[i] as int].path@,
                ) == path_parts(entries[earlier].path@);
            paths_are_ordered(path, path, path);
            if i < place {
                assert(path_less(entries[before[i] as int].path@, path));
            } else {
                assert(path_less(path, entries[before[i] as int].path@));
            }
        }
    }
    assert forall|other: int|
        0 <= other < index + 1 && selectable(#[trigger] entries[other]) implies path_listed(
        entries,
        after,
        other,
    ) by {
        if other == index {
            assert(after[place] == index);
        } else {
            assert(path_listed(entries, before, other));
            let i = choose|i: int|
                0 <= i < before.len() && path_parts(
                    entries[#[trigger] before[i] as int].path@,
                ) == path_parts(entries[other].path@);
            let moved = if i < place {
                i
            } else {
                i + 1
            };
            assert(after[moved] == before[i]);
        }
    }
}

/// Describes a failure of the file system. A refused access is explained, so
/// that nobody changes a driver on its account.
pub fn discovery_error(operation: &'static str, message: String, permission_denied: bool) -> (error:
    DiscoveryError)
    ensures
        match error {
            DiscoveryError::Failed { operation: failed, message: text } => failed == operation
                && text@ == if permission_denied {
                message@ + "; check access permissions without changing printer drivers"@
            } else {
                message@
            },
        },
{
    let message = if permission_denied {
        message.concat("; check access permissions without changing printer drivers")
    } else {
        message
    };
    DiscoveryError::Failed { operation, message }
}

proof fn lemma_byte_digits(value: u8)
    ensures
        hex_text(value as nat, 2, false) == seq![
            digit_char((value / 16) as nat, false),
            digit_char((value % 16) as nat, false),
        ],
{
    reveal_with_fuel(hex_text, 3);
    assert(hex_text(value as nat, 2, false) =~= seq![
        digit_char((value / 16) as nat, false),
        digit_char((value % 16) as nat, false),
    ]);
}

proof fn lemma_octets_key(left: Seq<u8>, right: Seq<u8>)
    requires
        left.len() == right.len(),
    ensures
        octets_key(left).len() == 2 * left.len(),
        octets_key(left) == octets_key(right) ==> left == right,
    decreases left.len(),
{
    if left.len() > 0 {
        lemma_octets_key(left.drop_last(), right.drop_last());
        lemma_octets_key(right.drop_last(), left.drop_last());
        lemma_byte_digits(left.last());
        lemma_byte_digits(right.last());
        if octets_key(left) == octets_key(right) {
            let a = octets_key(left);
            let b = octets_key(right);
            let length = octets_key(left.drop_last()).len() as int;
            assert(a.take(length) =~= octets_key(left.drop_last()));
            assert(b.take(length) =~= octets_key(right.drop_last()));
            assert(a[length] == b[length]);
            assert(a[length + 1] == b[length + 1]);
            assert(left.last() == right.last());
            assert(left =~= left.drop_last().push(left.last()));
            assert(right =~= right.drop_last().push(right.last()));
        }
    } else {
        assert(left =~= right);
    }
}

proof fn lemma_port_digits(port: u16)
    ensures
        hex_text(port as nat, 4, false).len() == 4,
        hex_text(port as nat, 4, false) == seq![
            digit_char((port / 4096) as nat, false),
            digit_char((port / 256 % 16) as nat, false),
            digit_char((port / 16 % 16) as nat, false),
            digit_char((port % 16) as nat, false),
        ],
{
    reveal_with_fuel(hex_text, 5);
    assert(hex_text(port as nat, 4, false) =~= seq![
        digit_char((port / 4096) as nat, false),
        digit_char((port / 256 % 16) as nat, false),
        digit_char((port / 16 % 16) as nat, false),
        digit_char((port % 16) as nat, false),
    ]);
}

proof fn lemma_digits_differ(left: nat, right: nat)
    requires
        left < 16,
        right < 16,
        digit_char(left, false) == digit_char(right, false),
    ensures
        left == right,
{
}

proof fn lemma_port_key(left: u16, right: u16)
    requires
        hex_text(left as nat, 4, false) == hex_text(right as nat, 4, false),
    ensures
        left == right,
{
    lemma_port_digits(left);
    lemma_port_digits(right);
    let a = hex_text(left as nat, 4, false);
    let b = hex_text(right as nat, 4, false);
    assert(a[0] == b[0] && a[1] == b[1] && a[2] == b[2] && a[3] == b[3]);
    lemma_digits_differ((left / 4096) as nat, (right / 4096) as nat);
    lemma_digits_differ((left / 256 % 16) as nat, (right / 256 % 16) as nat);
    lemma_digits_differ((left / 16 % 16) as nat, (right / 16 % 16) as nat);
    lemma_digits_differ((left % 16) as nat, (right % 16) as nat);
}

proof fn lemma_octet_digits(octets: Seq<u8>, index: int)
    requires
        0 <= index < octets.len(),
    ensures
        octets_key(octets).len() == 2 * octets.len(),
        octets_key(octets)[2 * index] == digit_char((octets[index] / 16) as nat, false),
        octets_key(octets)[2 * index + 1] == digit_char((octets[index] % 16) as nat, false),
    decreases octets.len(),
{
    let before = octets.drop_last();
    lemma_octets_key(before, before);
    lemma_byte_digits(octets.last());
    if index < before.len() {
        lemma_octet_digits(before, index);
    }
}

/// A text comes before another one if it does so where they first differ.
proof fn lemma_less_at(left: Seq<char>, right: Seq<char>, place: int)
    requires
        0 <= place < left.len(),
        place < right.len(),
        forall|i: int| 0 <= i < place ==> left[i] == right[i],
        left[place] < right[place],
    ensures
        text_less(left, right),
    decreases place,
{
    if place > 0 {
        assert(left[0] == right[0]);
        assert forall|i: int| 0 <= i < place - 1 implies left.drop_first()[i]
            == right.drop_first()[i] by {
            assert(left[i + 1] == right[i + 1]);
        }
        lemma_less_at(left.drop_first(), right.drop_first(), place - 1);
    }
}

/// Bytes come before as many others: they are smaller where the two first differ.
pub open spec fn octets_before(left: Seq<u8>, right: Seq<u8>) -> bool {
    exists|place: int|
        0 <= place < left.len() && #[trigger] left[place] < right[place] && left.take(place)
            == right.take(place)
}

/// The order of socket addresses: those of four bytes first, then by their bytes,
/// and then by the port.
pub open spec fn socket_before(
    left: Seq<u8>,
    left_port: u16,
    right: Seq<u8>,
    right_port: u16,
) -> bool {
    if left.len() != right.len() {
        left.len() < right.len()
    } else {
        octets_before(left, right) || (left == right && left_port < right_port)
    }
}

proof fn lemma_port_value(port: u16)
    ensures
        port == 4096 * (port / 4096) + 256 * (port / 256 % 16) + 16 * (port / 16 % 16) + port % 16,
{
}

proof fn lemma_digits_ordered(left: nat, right: nat)
    requires
        left < right < 16,
    ensures
        digit_char(left, false) < digit_char(right, false),
{
}

proof fn lemma_ports_ordered(front: Seq<char>, left: u16, right: u16)
    requires
        left < right,
    ensures
        text_less(front + hex_text(left as nat, 4, false), front + hex_text(right as nat, 4, false)),
{
    lemma_port_digits(left);
    lemma_port_digits(right);
    lemma_port_value(left);
    lemma_port_value(right);
    let a = front + hex_text(left as nat, 4, false);
    let b = front + hex_text(right as nat, 4, false);
    let first = front.len() as int;
    if left / 4096 != right / 4096 {
        lemma_digits_ordered((left / 4096) as nat, (right / 4096) as nat);
        lemma_less_at(a, b, first);
    } else if left / 256 % 16 != right / 256 % 16 {
        lemma_digits_ordered((left / 256 % 16) as nat, (right / 256 % 16) as nat);
        lemma_less_at(a, b, first + 1);
    } else if left / 16 % 16 != right / 16 % 16 {
        lemma_digits_ordered((left / 16 % 16) as nat, (right / 16 % 16) as nat);
        lemma_less_at(a, b, first + 2);
    } else {
        lemma_digits_ordered((left % 16) as nat, (right % 16) as nat);
        lemma_less_at(a, b, first + 3);
    }
}

/// Devices are listed in the order of their socket addresses: the key of an
/// address comes before the keys of all that follow it.
pub proof fn keys_follow_socket_addresses(
    left: Seq<u8>,
    left_port: u16,
    right: Seq<u8>,
    right_port: u16,
)
    requires
        left.len() == 4 || left.len() == 16,
        right.len() == 4 || right.len() == 16,
        socket_before(left, left_port, right, right_port),
    ensures
        text_less(socket_key(left, left_port), socket_key(right, right_port)),
{
    let a = socket_key(left, left_port);
    let b = socket_key(right, right_port);
    if left.len() != right.len() {
        lemma_less_at(a, b, 0);
    } else if octets_before(left, right) {
        let place = choose|place: int|
            0 <= place < left.len() && #[trigger] left[place] < right[place] && left.take(place)
                == right.take(place);
        lemma_octet_digits(left, place);
        lemma_octet_digits(right, place);
        assert forall|i: int| 0 <= i < 1 + 2 * place implies a[i] == b[i] by {
            if i > 0 {
                let byte = (i - 1) / 2;
                lemma_octet_digits(left, byte);
                lemma_octet_digits(right, byte);
                assert(left.take(place)[byte] == right.take(place)[byte]);
                assert(i - 1 == 2 * byte || i - 1 == 2 * byte + 1);
            }
        }
        let high = 1 + 2 * place;
        if left[place] / 16 < right[place] / 16 {
            assert(a[high] < b[high]);
            lemma_less_at(a, b, high);
        } else {
            assert(left[place] / 16 == right[place] / 16);
            assert(left[place] % 16 < right[place] % 16);
            assert(a[high] == b[high]);
            assert(a[high + 1] < b[high + 1]);
            lemma_less_at(a, b, high + 1);
        }
    } else {
        let front = seq![
            if left.len() == 4 {
                '4'
            } else {
                '6'
            },
        ] + octets_key(left);
        lemma_ports_ordered(front, left_port, right_port);
    }
}

/// Two socket addresses are recorded under the same key only if they are the
/// same.
pub proof fn socket_addresses_are_told_apart(
    left: Seq<u8>,
    left_port: u16,
    right: Seq<u8>,
    right_port: u16,
)
    requires
        left.len() == 4 || left.len() == 16,
        right.len() == 4 || right.len() == 16,
        socket_key(left, left_port) == socket_key(right, right_port),
    ensures
        left == right,
        left_port == right_port,
{
    assert(socket_key(left, left_port)[0] == if left.len() == 4 {
        '4'
    } else {
        '6'
    });
    assert(socket_key(right, right_port)[0] == if right.len() == 4 {
        '4'
    } else {
        '6'
    });
    lemma_octets_key(left, right);
    lemma_octets_key(right, left);
    let a = socket_key(left, left_port);
    let b = socket_key(right, right_port);
    let length = (1 + 2 * left.len()) as int;
    assert(a.subrange(1, length) =~= octets_key(left));
    assert(b.subrange(1, length) =~= octets_key(right));
    assert(a.skip(length) =~= hex_text(left_port as nat, 4, false));
    assert(b.skip(length) =~= hex_text(right_port as nat, 4, false));
    lemma_port_key(left_port, right_port);
}

/// What one more address of a service adds to a registry: a device of that name at the
/// address and the port, in place of an earlier one there. Every other device stays.
pub proof fn services_are_registered_one_by_one(
    devices: Map<Seq<char>, DeviceView>,
    name: Seq<char>,
    port: u16,
    addresses: Seq<IpAddress>,
    address: IpAddress,
)
    ensures
        ({
            let before = registered(devices, name, port, addresses);
            let after = registered(devices, name, port, addresses.push(address));
            let key = socket_key(address.octets@, port);
            let place = if address.octets@.len() == 4 {
                address.text@ + seq![':'] + dec_text(port as nat)
            } else {
                seq!['['] + address.text@ + seq![']', ':'] + dec_text(port as nat)
            };
            &&& registered(devices, name, port, seq![]) == devices
            &&& after.contains_key(key)
            &&& after[key].display_name == name
            &&& after[key].location == (LocationView::Network { address: place })
            &&& forall|other: Seq<char>|
                other != key ==> (#[trigger] after.contains_key(other) <==> before.contains_key(
                    other,
                ))
            &&& forall|other: Seq<char>|
                other != key ==> #[trigger] after[other] == before[other]
        }),
{
    reveal_strlit(":");
    reveal_strlit("[");
    reveal_strlit("]:");
    assert(":"@ =~= seq![':']);
    assert("["@ =~= seq!['[']);
    assert("]:"@ =~= seq![']', ':']);
    assert(addresses.push(address).drop_last() =~= addresses);
}

/// What is listed of the device directories: character devices named `lp` and a number,
/// each path once, and none of them is missing.
pub proof fn listed_files_are_printers(
    entries: Seq<DirectoryEntry>,
    positions: Seq<usize>,
    index: int,
)
    requires
        files_listed(entries, entries.len() as int, positions),
    ensures
        0 <= index < positions.len() ==> {
            let entry = entries[positions[index] as int];
            &&& positions[index] < entries.len()
            &&& entry.is_char_device
            &&& entry.name@.len() > 2
            &&& entry.name@[0] as int == 108
            &&& entry.name@[1] as int == 112
            &&& forall|i: int|
                2 <= i < entry.name@.len() ==> 48 <= (#[trigger] entry.name@[i]) as int <= 57
        },
        0 <= index < entries.len() && entries[index].is_char_device && entries[index].name@.len()
            > 2 && entries[index].name@[0] as int == 108 && entries[index].name@[1] as int == 112
            && (forall|i: int|
            2 <= i < entries[index].name@.len() ==> 48 <= (
            #[trigger] entries[index].name@[i]) as int <= 57) ==> exists|i: int|
            0 <= i < positions.len() && path_parts(
                entries[#[trigger] positions[i] as int].path@,
            ) == path_parts(entries[index].path@),
        forall|i: int, j: int|
            0 <= i < j < positions.len() ==> path_less(
                entries[#[trigger] positions[i] as int].path@,
                entries[#[trigger] positions[j] as int].path@,
            ),
{
    if 0 <= index < entries.len() && selectable(entries[index]) {
        assert(path_listed(entries, positions, index));
    }
}

/// What is known of devices stands in the order of the devices.
pub proof fn devices_stand_in_order(devices: Seq<DiscoveredDevice>, index: int)
    requires
        0 <= index < devices.len(),
    ensures
        device_views(devices).len() == devices.len(),
        device_views(devices)[index].display_name == devices[index].display_name@,
        match devices[index].location {
            DeviceLocation::Network { address } => device_views(devices)[index].location
                == (LocationView::Network { address: address@ }),
            DeviceLocation::DeviceFile(path) => device_views(devices)[index].location
                == LocationView::DeviceFile(path@),
            DeviceLocation::Usb => device_views(devices)[index].location == LocationView::Usb,
        },
{
}

} // verus!
