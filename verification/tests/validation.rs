//! Validation, encoding, money and date behaviour.

use depot_pos::dates;
use depot_pos::money::Money;
use depot_pos::printer::{
    add_printer, default_printer, get_default_printer, get_printer_by_name, parse_paper_width,
    PrinterConfig, PrinterError, PrinterErrorHandler, PrinterType,
};
use depot_pos::query::{parse_sort_order, SortOrder};
use depot_pos::textenc::{convert_to_escpos, encode_text_for_pdf_bytes, encode_text_for_pdf_octal};

#[test]
fn test_name_validation() {
    let existing = vec!["Imprimante1".to_string()];

    assert!(PrinterErrorHandler::validate_name("Imprimante Test", &existing).is_ok());
    assert!(PrinterErrorHandler::validate_name("ABC", &existing).is_ok());

    assert!(PrinterErrorHandler::validate_name("", &existing).is_err());
    assert!(PrinterErrorHandler::validate_name("AB", &existing).is_err());
    assert!(PrinterErrorHandler::validate_name("Test<>", &existing).is_err());
    assert!(PrinterErrorHandler::validate_name("imprimante1", &existing).is_err());
}

#[test]
fn test_network_port_validation() {
    assert!(PrinterErrorHandler::validate_network_port("192.168.1.100:9100").is_ok());
    assert!(PrinterErrorHandler::validate_network_port("192.168.1.100").is_err());
    assert!(PrinterErrorHandler::validate_network_port("invalid_ip:9100").is_err());
    assert!(PrinterErrorHandler::validate_network_port("192.168.1.100:0").is_err());
}

#[test]
fn test_paper_width_validation() {
    assert!(PrinterErrorHandler::validate_paper_width("32").is_ok());
    assert!(PrinterErrorHandler::validate_paper_width("48").is_ok());
    assert!(PrinterErrorHandler::validate_paper_width("64").is_ok());
    assert!(PrinterErrorHandler::validate_paper_width("100").is_err());
    assert!(PrinterErrorHandler::validate_paper_width("invalid").is_err());
}

#[test]
fn test_encode_text_for_pdf_bytes() {
    let text = "Café français avec des accents: é è ê à ç";
    let encoded = encode_text_for_pdf_bytes(text);
    assert!(encoded.contains(&0xE9));
    assert!(encoded.contains(&0xE8));
    assert!(encoded.contains(&0xEA));
    assert!(encoded.contains(&0xE0));
    assert!(encoded.contains(&0xE7));
}

#[test]
fn test_encode_cafe() {
    let text = "Café";
    let encoded = encode_text_for_pdf_bytes(text);
    assert_eq!(encoded, vec![67, 97, 102, 0xE9]);
}

#[test]
fn encode_octal_differs_on_capital_y_umlaut() {
    assert_eq!(encode_text_for_pdf_bytes("Ÿ"), vec![0x9F]);
    assert_eq!(encode_text_for_pdf_octal("Ÿ"), vec![b'?']);
    assert_eq!(encode_text_for_pdf_octal("é"), vec![0xE9]);
}

#[test]
fn escpos_wraps_content() {
    let out = convert_to_escpos("hello");
    assert_eq!(out, "\u{1B}\u{40}hello\u{1D}\u{56}\u{0}");
}

#[test]
fn serial_and_usb_and_windows_ports() {
    assert!(PrinterErrorHandler::validate_serial_port("/dev/ttyUSB0").is_ok());
    assert!(PrinterErrorHandler::validate_serial_port("COM1").is_err());
    assert!(PrinterErrorHandler::validate_serial_port("/dev/tty").is_err());
    assert!(PrinterErrorHandler::validate_usb_port("USB001").is_ok());
    assert!(PrinterErrorHandler::validate_windows_port("HP LaserJet").is_ok());
    assert!(PrinterErrorHandler::validate_windows_port("bad|name").is_err());
    assert!(PrinterErrorHandler::validate_port("  ", "USB").is_err());
    assert!(PrinterErrorHandler::validate_port("x", "Teleport").is_err());
    assert!(
        PrinterErrorHandler::validate_printer_config(
            "Bar principale",
            "192.168.1.50:9100",
            "Network",
            "48",
            &vec![],
        )
        .is_ok()
    );
}

#[test]
fn printer_error_texts() {
    let e = PrinterError::ValidationError("oops".to_string());
    assert_eq!(e.message(), "❌ Erreur de validation : oops");
    assert_eq!(e.icon(), "❌");
    assert_eq!(e.color(), "#e74c3c");
    let d = PrinterError::DuplicateError("x".to_string());
    assert_eq!(d.message(), "🔄 Doublon : x");
    let n = PrinterError::NetworkError("x".to_string());
    assert_eq!(n.message(), "🌐 Erreur réseau : x");
    assert_eq!(n.icon(), "🌐");
}

#[test]
fn printer_config_helpers() {
    let d = default_printer();
    assert!(d.is_default);
    assert_eq!(d.paper_width, 48);

    let configs = add_printer(
        Vec::new(),
        PrinterConfig {
            name: "A".to_string(),
            port: "/dev/ttyUSB0".to_string(),
            printer_type: PrinterType::Serial,
            paper_width: 48,
            is_default: false,
        },
    );
    // the first printer becomes the default even when not asked to
    assert!(configs[0].is_default);

    let configs = add_printer(
        configs,
        PrinterConfig {
            name: "B".to_string(),
            port: "10.0.0.1:9100".to_string(),
            printer_type: PrinterType::Network,
            paper_width: 32,
            is_default: true,
        },
    );
    assert!(!configs[0].is_default);
    assert!(configs[1].is_default);
    assert_eq!(get_default_printer(&configs).unwrap().name, "B");
    assert_eq!(get_printer_by_name(&configs, "A").unwrap().port, "/dev/ttyUSB0");
    assert!(get_printer_by_name(&configs, "C").is_none());

    assert_eq!(parse_paper_width("32 caracteres"), 32);
    assert_eq!(parse_paper_width("64"), 64);
    assert_eq!(parse_paper_width("large"), 48);
}

#[test]
fn sort_order_parsing() {
    assert_eq!(parse_sort_order("desc"), SortOrder::Desc);
    assert_eq!(parse_sort_order("DESCENDING"), SortOrder::Desc);
    assert_eq!(parse_sort_order("asc"), SortOrder::Asc);
    assert_eq!(parse_sort_order("anything"), SortOrder::Asc);
}

#[test]
fn money_arithmetic_is_exact() {
    let price = Money::from_units(1000);
    let line = price.checked_mul_int(2).unwrap();
    assert_eq!(line, Money::from_units(2000));
    let total = line.checked_add(Money::from_units(500)).unwrap();
    assert_eq!(total, Money::from_units(2500));
    assert!(Money::from_units(0).is_nonnegative());
    assert!(!Money::from_units(0).is_positive());
}

#[test]
fn money_text_round_trip() {
    assert_eq!(Money::from_units(9600).to_text(), "9600");
    assert_eq!(Money { cents: 965000 }.to_text(), "9650");
    assert_eq!(Money { cents: 9650 }.to_text(), "96.5");
    assert_eq!(Money { cents: 9655 }.to_text(), "96.55");
    assert_eq!(Money { cents: -150 }.to_text(), "-1.5");

    assert_eq!(Money::parse_text("9600").unwrap(), Money::from_units(9600));
    assert_eq!(Money::parse_text("96.5").unwrap(), Money { cents: 9650 });
    assert_eq!(Money::parse_text("96.55").unwrap(), Money { cents: 9655 });
    assert_eq!(Money::parse_text("-1.5").unwrap(), Money { cents: -150 });
    assert!(Money::parse_text("").is_none());
    assert!(Money::parse_text("12.345").is_none());
    assert!(Money::parse_text("abc").is_none());
    assert!(Money::parse_text("1.2.3").is_none());
}

#[test]
fn receipt_date_formatting() {
    assert_eq!(
        dates::format_receipt_date("2025-06-22 21:35:40.123456").unwrap(),
        "22/06/2025 21:35"
    );
    assert!(dates::format_receipt_date("not a date").is_err());
    assert!(dates::format_receipt_date("2025-13-22 21:35:40").is_err());
    assert!(dates::validate_timestamp("2025-06-22 21:35:40"));
    assert!(!dates::validate_timestamp("2025-06-22"));
}

#[test]
fn date_window_helpers() {
    let now = "2025-06-22 21:35:40.123";
    assert_eq!(dates::day_floor(now), "2025-06-22 00:00:00");
    assert_eq!(dates::day_ceil(now), "2025-06-22 23:59:59");
    assert_eq!(dates::days_back(now, 7), "2025-06-15 21:35:40.123");
    // across a month boundary
    assert_eq!(dates::days_back("2025-03-03 08:00:00", 7), "2025-02-24 08:00:00");
    // across a leap day
    assert_eq!(dates::days_back("2024-03-01 08:00:00", 1), "2024-02-29 08:00:00");
    assert_eq!(dates::days_back("2023-03-01 08:00:00", 1), "2023-02-28 08:00:00");
    // across a year boundary
    assert_eq!(dates::days_back("2025-01-05 10:30:00", 30), "2024-12-06 10:30:00");
}

#[test]
fn config_fields_round_through_text() {
    let c = depot_pos::printer::config_from_fields(
        "Bar".to_string(),
        "10.0.0.9:9100".to_string(),
        "Network",
        "64",
        true,
    );
    assert_eq!(c.paper_width, 64);
    assert!(matches!(c.printer_type, PrinterType::Network));
    assert_eq!(depot_pos::printer::printer_type_text(&c.printer_type), "Network");
    let d = depot_pos::printer::config_from_fields(
        "Bar".to_string(),
        "x".to_string(),
        "Teleport",
        "not a number",
        false,
    );
    assert_eq!(d.paper_width, 48);
    assert!(matches!(d.printer_type, PrinterType::Serial));
    assert!(matches!(
        depot_pos::printer::printer_type_from_text("USB"),
        PrinterType::USB
    ));
}
