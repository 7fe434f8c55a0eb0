use plotter_core::ports::arrange_endpoints;
use plotter_core::ports::is_eligible;
use plotter_core::ports::ConnectionEndpoint;
use plotter_core::ports::EndpointKind;

fn endpoint(name: &str, kind: EndpointKind) -> ConnectionEndpoint {
    ConnectionEndpoint { name: name.to_string(), kind }
}

#[test]
fn eligibility_excludes_pci_and_unknown() {
    assert!(is_eligible(&endpoint("a", EndpointKind::Usb)));
    assert!(is_eligible(&endpoint("a", EndpointKind::Bluetooth)));
    assert!(!is_eligible(&endpoint("a", EndpointKind::Pci)));
    assert!(!is_eligible(&endpoint("a", EndpointKind::Unknown)));
}

#[test]
fn arrange_filters_out_pci_and_unknown_and_sorts_by_name() {
    let raw = vec![
        endpoint("/dev/ttyZ", EndpointKind::Usb),
        endpoint("/dev/ttyA", EndpointKind::Bluetooth),
        endpoint("/dev/ttyM", EndpointKind::Pci),
        endpoint("/dev/ttyB", EndpointKind::Unknown),
        endpoint("/dev/ttyC", EndpointKind::Usb),
    ];
    let arranged = arrange_endpoints(&raw);
    let names: Vec<&str> = arranged.iter().map(|e| e.name.as_str()).collect();
    assert_eq!(names, vec!["/dev/ttyA", "/dev/ttyC", "/dev/ttyZ"]);
    assert_eq!(arranged[0].kind, EndpointKind::Bluetooth);
    assert_eq!(arranged[1].kind, EndpointKind::Usb);
    assert_eq!(arranged[2].kind, EndpointKind::Usb);
}

#[test]
fn arrange_keeps_duplicate_names() {
    let raw = vec![
        endpoint("b", EndpointKind::Usb),
        endpoint("a", EndpointKind::Usb),
        endpoint("b", EndpointKind::Bluetooth),
    ];
    let arranged = arrange_endpoints(&raw);
    let names: Vec<&str> = arranged.iter().map(|e| e.name.as_str()).collect();
    assert_eq!(names, vec!["a", "b", "b"]);
}

#[test]
fn arrange_of_nothing_is_nothing() {
    let arranged = arrange_endpoints(&Vec::new());
    assert!(arranged.is_empty());
}

#[test]
fn arranged_host_listing_is_eligible_and_sorted() {
    // Mirrors the shell's enumeration path: the raw host query (which
    // the serial crate's fallback scanner aborts on when the tty class
    // directory is unreadable, hence the probe) feeds the verified
    // filter and sort.
    if std::path::Path::new("/sys/class/tty/").read_dir().is_err() {
        return;
    }
    let raw: Vec<ConnectionEndpoint> = match serialport::available_ports() {
        Ok(infos) => infos
            .into_iter()
            .map(|i| ConnectionEndpoint {
                name: i.port_name,
                kind: match i.port_type {
                    serialport::SerialPortType::UsbPort(_) => EndpointKind::Usb,
                    serialport::SerialPortType::PciPort => EndpointKind::Pci,
                    serialport::SerialPortType::BluetoothPort => EndpointKind::Bluetooth,
                    serialport::SerialPortType::Unknown => EndpointKind::Unknown,
                },
            })
            .collect(),
        Err(_) => return,
    };
    let listed = arrange_endpoints(&raw);
    for e in &listed {
        assert!(e.kind != EndpointKind::Pci);
        assert!(e.kind != EndpointKind::Unknown);
    }
    for pair in listed.windows(2) {
        assert!(pair[0].name <= pair[1].name);
    }
}
