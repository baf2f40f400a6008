use slipbridge::error::SlipbridgeError;
use slipbridge::transport::{
    discovered_from_mdns_service, finalize_printer_list, find_bulk_out_endpoint, is_likely_receipt_printer,
    mdns_host, parse_tcp_target, parse_u16_hex, parse_u8_auto, parse_usb_target, resolve_discovered_printer,
    resolve_printer, service_instance_name, usb_device_matches, usb_discovered_printer, usb_not_found,
    DiscoveredPrinter, EndpointInfo, PrinterTarget, TransportKind, UsbTarget,
};

#[test]
fn parses_tcp_target_host_port() {
    let target = parse_tcp_target("printer.local:9100").expect("target should parse");
    assert_eq!(target.host, "printer.local");
    assert_eq!(target.port, 9100);
}

#[test]
fn rejects_tcp_target_with_zero_port() {
    let err = parse_tcp_target("printer.local:0").expect_err("port 0 should fail");
    assert!(err.to_string().contains("greater than 0"));
}

#[test]
fn parses_usb_target_with_bus_and_address() {
    let target = parse_usb_target("04b8:0e15:1:2").expect("target should parse");
    assert_eq!(target.vendor_id, 0x04b8);
    assert_eq!(target.product_id, 0x0e15);
    assert_eq!(target.bus_number, Some(1));
    assert_eq!(target.device_address, Some(2));
}

fn invalid(err: SlipbridgeError) -> String {
    match err {
        SlipbridgeError::InvalidArgument(m) => m,
        other => panic!("unexpected error {other:?}"),
    }
}

#[test]
fn tcp_target_splits_at_last_colon() {
    let target = parse_tcp_target("[fe80::1]:9100").expect("target should parse");
    assert_eq!(target.host, "[fe80::1]");
    assert_eq!(target.port, 9100);
}

#[test]
fn tcp_target_errors() {
    assert_eq!(invalid(parse_tcp_target("printer").unwrap_err()), "tcp selector must be host:port");
    assert_eq!(invalid(parse_tcp_target(":9100").unwrap_err()), "tcp selector host cannot be empty");
    assert_eq!(
        invalid(parse_tcp_target("host:99999").unwrap_err()),
        "invalid tcp port '99999': expected 1-65535"
    );
    assert_eq!(invalid(parse_tcp_target("host:").unwrap_err()), "invalid tcp port '': expected 1-65535");
    assert_eq!(invalid(parse_tcp_target("host:0").unwrap_err()), "tcp port must be greater than 0");
    assert_eq!(parse_tcp_target("host:+80").unwrap().port, 80);
}

#[test]
fn usb_target_without_bus() {
    let target = parse_usb_target(" 0x04B8 :0e15").expect("target should parse");
    assert_eq!(target, UsbTarget { vendor_id: 0x04b8, product_id: 0x0e15, bus_number: None, device_address: None });
}

#[test]
fn usb_target_errors() {
    assert_eq!(
        invalid(parse_usb_target("04b8").unwrap_err()),
        "USB selector must be VID:PID or VID:PID:BUS:ADDRESS"
    );
    assert_eq!(
        invalid(parse_usb_target("04b8:0e15:1").unwrap_err()),
        "USB selector must be VID:PID or VID:PID:BUS:ADDRESS"
    );
    assert_eq!(invalid(parse_usb_target("zz:0e15").unwrap_err()), "invalid vendor id 'zz', expected hex");
    assert_eq!(
        invalid(parse_usb_target("04b8:0x0x:1:2").unwrap_err()),
        "invalid product id '', expected hex"
    );
    assert_eq!(invalid(parse_usb_target("04b8:0e15:300:2").unwrap_err()), "invalid bus number '300'");
    assert_eq!(invalid(parse_usb_target("04b8:0e15:1:0xg").unwrap_err()), "invalid device address '0xg'");
}

#[test]
fn number_fields_follow_from_str_radix() {
    assert_eq!(parse_u16_hex("0x0x1F", "id").unwrap(), 0x1f);
    assert_eq!(parse_u16_hex("\t ffff\n", "id").unwrap(), 0xffff);
    assert!(parse_u16_hex("10000", "id").is_err());
    assert!(parse_u16_hex("+", "id").is_err());
    assert_eq!(parse_u8_auto("0x1f", "bus").unwrap(), 31);
    assert_eq!(parse_u8_auto(" 255 ", "bus").unwrap(), 255);
    assert!(parse_u8_auto("256", "bus").is_err());
    assert!(parse_u8_auto("-1", "bus").is_err());
}

fn printer(id: &str, name: &str) -> DiscoveredPrinter {
    DiscoveredPrinter {
        id: id.to_owned(),
        display_name: name.to_owned(),
        transport: "tcp".to_owned(),
        address: String::new(),
        source: None,
    }
}

#[test]
fn selector_forms_resolve() {
    let usb = resolve_printer("usb://04B8:e15:1:2", &[]).expect("usb");
    assert_eq!(usb.id, "usb://04b8:0e15");
    assert_eq!(usb.transport, TransportKind::Usb);
    assert!(matches!(usb.target, PrinterTarget::Usb(t) if t.bus_number == Some(1)));

    let tcp = resolve_printer("tcp://printer.local:9100", &[]).expect("tcp");
    assert_eq!(tcp.id, "tcp://printer.local:9100");
    assert_eq!(tcp.transport, TransportKind::Tcp);

    let bare = resolve_printer("10.0.0.5:+9100", &[]).expect("bare");
    assert_eq!(bare.id, "tcp://10.0.0.5:9100");
}

#[test]
fn selector_matches_discovered_printers() {
    let discovered = vec![
        printer("tcp://kitchen.local:9100", "Kitchen Epson"),
        printer("usb://04b8:0e15:1:2", "EPSON TM-T20"),
        printer("tcp://bar.local:9100", "Bar printer"),
    ];
    // a selector that reads as host:port is taken as one, even when it names a listed id
    let direct = resolve_printer("USB://04B8:0E15:1:2", &discovered).expect("host:port");
    assert_eq!(direct.id, "tcp://USB://04B8:0E15:1:2");
    let queue = vec![printer("lpd-queue", "Kitchen"), printer("tcp://k:1", "Kitchen too")];
    let err = resolve_printer("LPD-Queue", &queue).expect_err("id match wins over names");
    assert_eq!(invalid(err), "unsupported discovered printer id 'lpd-queue'");
    let by_name = resolve_printer("tm-t20", &discovered).expect("by name");
    assert_eq!(by_name.id, "usb://04b8:0e15");
    let err = resolve_printer("epson", &discovered).expect_err("ambiguous");
    assert_eq!(invalid(err), "printer selector 'epson' is ambiguous; use a full id");
    match resolve_printer("office", &discovered).expect_err("missing") {
        SlipbridgeError::NotFound(m) => assert_eq!(m, "no printer matched selector 'office'"),
        other => panic!("unexpected error {other:?}"),
    }
}

#[test]
fn discovered_ids_resolve() {
    let tcp = resolve_discovered_printer(&printer("tcp://h:1", "x")).expect("tcp");
    assert_eq!(tcp.id, "tcp://h:1");
    let err = resolve_discovered_printer(&printer("lpd://h", "x")).expect_err("unsupported");
    assert_eq!(invalid(err), "unsupported discovered printer id 'lpd://h'");
}

#[test]
fn printer_list_is_deduplicated_and_sorted() {
    let list = finalize_printer_list(vec![
        printer("tcp://b:1", "first b"),
        printer("tcp://a:1", "a"),
        printer("tcp://b:1", "second b"),
        printer("usb://04b8:0e15:1:2", "usb"),
    ]);
    let ids: Vec<_> = list.iter().map(|p| (p.id.as_str(), p.display_name.as_str())).collect();
    assert_eq!(ids, vec![("tcp://a:1", "a"), ("tcp://b:1", "first b"), ("usb://04b8:0e15:1:2", "usb")]);
}

#[test]
fn service_names_and_hosts() {
    assert_eq!(service_instance_name("Kitchen._pdl-datastream._tcp.local."), "Kitchen");
    assert_eq!(service_instance_name("plain.local.."), "plain.local");
    assert_eq!(mdns_host("kitchen.local."), "kitchen.local");
}

#[test]
fn mdns_service_yields_candidate_ports() {
    let printers = discovered_from_mdns_service(
        "kitchen.local.",
        515,
        None,
        "Kitchen._printer._tcp.local.",
        "_printer._tcp.local.",
        true,
    );
    let ids: Vec<_> = printers.iter().map(|p| p.id.as_str()).collect();
    assert_eq!(ids, vec!["tcp://kitchen.local:515", "tcp://kitchen.local:9100"]);
    assert_eq!(printers[0].display_name, "Kitchen");
    assert_eq!(printers[1].address, "kitchen.local:9100");
    assert_eq!(printers[1].source.as_deref(), Some("_printer._tcp.local."));

    let raw = discovered_from_mdns_service("h.", 9100, Some("TM-T88"), "x", "d", true);
    assert_eq!(raw.len(), 1);
    assert_eq!(raw[0].display_name, "TM-T88");
    assert!(discovered_from_mdns_service(".", 9100, None, "x", "d", true).is_empty());
}

#[test]
fn usb_listing_formats_ids_and_names() {
    let p = usb_discovered_printer(0x04b8, 0x0e15, 1, 12, Some("EPSON".to_owned()), None);
    assert_eq!(p.id, "usb://04b8:0e15:1:12");
    assert_eq!(p.display_name, "EPSON USB 04b8:0e15");
    assert_eq!(p.address, "bus 1 device 12");
    assert_eq!(p.source.as_deref(), Some("usb-enumeration"));
    let q = usb_discovered_printer(1, 2, 3, 4, None, None);
    assert_eq!(q.display_name, "USB 0001:0002");
}

#[test]
fn usb_device_selection() {
    assert!(is_likely_receipt_printer(0x04b8, 0, None));
    assert!(is_likely_receipt_printer(1, 7, None));
    assert!(is_likely_receipt_printer(1, 0, Some(&vec![3, 7])));
    assert!(!is_likely_receipt_printer(1, 0, Some(&vec![3])));
    let target = UsbTarget { vendor_id: 1, product_id: 2, bus_number: Some(3), device_address: None };
    assert!(usb_device_matches(&target, 1, 2, 3, 99));
    assert!(!usb_device_matches(&target, 1, 2, 4, 99));
    let endpoints = vec![
        EndpointInfo { interface_number: 0, address: 0x81, is_bulk: true, is_out: false },
        EndpointInfo { interface_number: 1, address: 0x02, is_bulk: true, is_out: true },
    ];
    assert_eq!(find_bulk_out_endpoint(&endpoints), Some((1, 0x02)));
    match usb_not_found(&target) {
        SlipbridgeError::NotFound(m) => assert_eq!(m, "USB printer 0001:0002 not found"),
        other => panic!("unexpected error {other:?}"),
    }
}

#[test]
fn listed_ids_lead_back_to_their_printers() {
    let listed = usb_discovered_printer(0x04b8, 0x0e15, 1, 12, None, None);
    let resolved = resolve_printer(&listed.id, &[]).expect("usb listing");
    assert_eq!(resolved.id, "usb://04b8:0e15");
    match resolved.target {
        PrinterTarget::Usb(t) => assert_eq!(
            t,
            UsbTarget { vendor_id: 0x04b8, product_id: 0x0e15, bus_number: Some(1), device_address: Some(12) }
        ),
        other => panic!("unexpected target {other:?}"),
    }
    let again = resolve_discovered_printer(&listed).expect("discovered usb");
    assert!(matches!(again.target, PrinterTarget::Usb(t) if t.device_address == Some(12)));

    let reresolved = resolve_printer(&resolved.id, &[]).expect("resolved id");
    assert_eq!(reresolved.id, resolved.id);
    assert!(matches!(reresolved.target, PrinterTarget::Usb(t) if t.bus_number.is_none()));

    let network = discovered_from_mdns_service("kitchen.local.", 9100, None, "K._x", "d", false);
    let tcp = resolve_printer(&network[0].id, &network).expect("tcp listing");
    assert_eq!(tcp.id, "tcp://kitchen.local:9100");
    match tcp.target {
        PrinterTarget::Tcp(t) => {
            assert_eq!(t.host, "kitchen.local");
            assert_eq!(t.port, 9100);
        }
        other => panic!("unexpected target {other:?}"),
    }
}

#[test]
fn finalizing_twice_changes_nothing() {
    let once = finalize_printer_list(vec![
        printer("tcp://z:1", "z"),
        printer("tcp://a:1", "first a"),
        printer("tcp://a:1", "second a"),
    ]);
    let twice = finalize_printer_list(once.clone());
    let names = |list: &[DiscoveredPrinter]| {
        list.iter().map(|p| (p.id.clone(), p.display_name.clone())).collect::<Vec<_>>()
    };
    assert_eq!(names(&once), names(&twice));
    assert_eq!(names(&once), vec![("tcp://a:1".to_owned(), "first a".to_owned()), ("tcp://z:1".to_owned(), "z".to_owned())]);
}
