//! Printers found on the network and among device files.
use reink::discovery::{
    device_files, device_for_path, devices_for_service, discovery_error, is_printer_device_name,
    printer_directories, printer_service_types, DeviceLocation, DeviceRegistry, DirectoryEntry,
    DiscoveryError, IpAddress,
};

fn v4(octets: [u8; 4]) -> IpAddress {
    IpAddress {
        octets: octets.to_vec(),
        text: format!("{}.{}.{}.{}", octets[0], octets[1], octets[2], octets[3]),
    }
}

fn v6_localhost() -> IpAddress {
    let mut octets = vec![0; 16];
    octets[15] = 1;
    IpAddress {
        octets,
        text: "::1".to_owned(),
    }
}

#[test]
fn accepts_only_linux_printer_device_names() {
    assert!(is_printer_device_name("lp0"));
    assert!(is_printer_device_name("lp123"));
    assert!(!is_printer_device_name("lp"));
    assert!(!is_printer_device_name("lp0.backup"));
    assert!(!is_printer_device_name("usb"));
}

#[test]
fn produces_an_explicit_device_file_selection() {
    let path = "/dev/usb/lp0".to_owned();
    let device = device_for_path(path.clone());

    assert_eq!(device.display_name, "/dev/usb/lp0");
    assert_eq!(device.location, DeviceLocation::DeviceFile(path));
}

#[test]
fn permission_failures_explain_the_non_destructive_remedy() {
    let error = discovery_error(
        "list device directory",
        "permission denied".to_owned(),
        true,
    );

    assert!(error
        .message()
        .contains("without changing printer drivers"));
}

#[test]
fn other_failures_keep_their_own_message() {
    let error = discovery_error("list device directory", "not found".to_owned(), false);
    assert_eq!(
        error,
        DiscoveryError::Failed {
            operation: "list device directory",
            message: "not found".to_owned(),
        }
    );
    assert!(error.message().contains("list device directory"));
    assert!(error.message().contains("not found"));
}

#[test]
fn creates_a_network_device_for_each_resolved_address() {
    let addresses = [v4([192, 0, 2, 10]), v6_localhost()];

    let devices = devices_for_service("Printer._ipp._tcp.local.", 631, &addresses);

    assert_eq!(devices.len(), 2);
    assert_eq!(devices[0].1.display_name, "Printer._ipp._tcp.local.");
    assert!(matches!(
        devices[0].1.location,
        DeviceLocation::Network { .. }
    ));
}

#[test]
fn network_addresses_are_written_as_socket_addresses() {
    let devices = devices_for_service("Printer", 631, &[v4([192, 0, 2, 10]), v6_localhost()]);
    assert_eq!(
        devices[0].1.location,
        DeviceLocation::Network {
            address: "192.0.2.10:631".to_owned()
        }
    );
    assert_eq!(
        devices[1].1.location,
        DeviceLocation::Network {
            address: "[::1]:631".to_owned()
        }
    );
}

#[test]
fn a_registry_keeps_one_device_for_each_socket_address() {
    let mut registry = DeviceRegistry::new();
    assert!(registry.devices().is_empty());
    registry.resolve("second", 631, &[v4([192, 0, 2, 20])]);
    registry.resolve("first", 631, &[v4([192, 0, 2, 3]), v6_localhost()]);
    registry.resolve("second again", 631, &[v4([192, 0, 2, 20])]);
    let names: Vec<String> = registry
        .devices()
        .into_iter()
        .map(|device| device.display_name)
        .collect();
    assert_eq!(names, ["first", "second again", "first"]);
}

#[test]
fn device_files_are_character_devices_with_printer_names_in_order() {
    let entry = |name: &str, is_char_device: bool| DirectoryEntry {
        name: name.to_owned(),
        path: format!("/dev/usb/{name}"),
        is_char_device,
    };
    let devices = device_files(&[
        entry("lp1", true),
        entry("lp0", true),
        entry("lp2", false),
        entry("hiddev0", true),
    ]);
    let names: Vec<String> = devices
        .into_iter()
        .map(|device| device.display_name)
        .collect();
    assert_eq!(names, ["/dev/usb/lp0", "/dev/usb/lp1"]);
}

#[test]
fn device_files_are_ordered_by_the_parts_of_their_paths() {
    let names = |paths: &[&str]| -> Vec<String> {
        let entries: Vec<DirectoryEntry> = paths
            .iter()
            .map(|path| DirectoryEntry {
                name: "lp0".to_owned(),
                path: (*path).to_owned(),
                is_char_device: true,
            })
            .collect();
        device_files(&entries)
            .into_iter()
            .map(|device| device.display_name)
            .collect()
    };
    assert_eq!(
        names(&["/dev/a-b/lp0", "/dev/a/lp0"]),
        ["/dev/a/lp0", "/dev/a-b/lp0"]
    );
    assert_eq!(
        names(&["/dev/usb/lp0", "/dev//usb/./lp0", "/dev/lp0/"]),
        ["/dev/lp0/", "/dev/usb/lp0"]
    );
    assert_eq!(
        names(&["dev/lp0", "../lp0", "./lp0", "/lp0", "lp0"]),
        ["/lp0", "./lp0", "../lp0", "dev/lp0", "lp0"]
    );
    let mut paths: Vec<std::path::PathBuf> = ["b/./c", "b//d", "a.b/c", "a/c", "/", "", ".", "..", "a/.."]
        .iter()
        .map(std::path::PathBuf::from)
        .collect();
    paths.sort();
    let expected: Vec<String> = paths.iter().map(|path| path.display().to_string()).collect();
    assert_eq!(
        names(&["a/..", "..", ".", "", "/", "a/c", "a.b/c", "b//d", "b/./c"]),
        expected
    );
}

#[test]
fn printers_are_looked_for_in_fixed_places() {
    assert_eq!(printer_directories(), ["/dev", "/dev/usb"]);
    assert!(printer_service_types()
        .iter()
        .all(|kind| kind.ends_with("._tcp.local.")));
}
