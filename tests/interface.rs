use urbxtract::licenses::{get_license_string_full, get_license_string_short};
use urbxtract::reconstructor::ReconstructedTransmission;
use urbxtract::textui::{
    format_decimal, navigation, sanitize_ansi_escape, transmission_row, NavKey, ShortcutsFooterState,
    TableMove, UIPage,
};
use urbxtract::urb::UrbXractHeader;

#[test]
fn license_texts() {
    let short = get_license_string_short();
    assert!(short.starts_with("UrbXtract  Copyright (C) 2025  Atheesh Thirumalairajan\n"));
    assert!(short.ends_with("under certain conditions; run with --license-info for details.\n"));
    let full = get_license_string_full();
    assert!(full.starts_with("UrbXtract\nCopyright (C) 2025"));
    assert!(full.contains("GNU General Public License as published by\n"));
}

#[test]
fn page_titles() {
    assert_eq!(UIPage::MainTableView.get_pagename(), "Packet Capture");
    assert_eq!(UIPage::MainTableView.get_apptitle(), "UrbXtract 0.0.1 > Packet Capture");
}

#[test]
fn sanitize_escapes_controls() {
    assert_eq!(sanitize_ansi_escape("a\nb\r\tc"), "a\\nb\\r\\tc");
    assert_eq!(sanitize_ansi_escape("\x1B[31m"), "\\e[31m");
    assert_eq!(sanitize_ansi_escape("\x00\x07\x7F"), "\\x00\\x07\\x7F");
    assert_eq!(sanitize_ansi_escape("\x1F"), "\\x1F");
    assert_eq!(sanitize_ansi_escape("h\u{e9}llo"), "h\u{e9}llo");
    assert_eq!(sanitize_ansi_escape(""), "");
}

#[test]
fn footer_text() {
    let st = ShortcutsFooterState::main_page();
    assert_eq!(
        st.panel_text(),
        "| More Info (\u{21b5}) | To Top (Shift + Up) | To Bottom (Shift + Down) | Quit (q) |"
    );
    assert_eq!(ShortcutsFooterState { shortcuts: vec![] }.panel_text(), "|");
}

#[test]
fn decimal_formatting() {
    assert_eq!(format_decimal(7, 3), "007");
    assert_eq!(format_decimal(42, 3), "042");
    assert_eq!(format_decimal(1234, 3), "1234");
    assert_eq!(format_decimal(0, 0), "0");
    assert_eq!(format_decimal(u64::MAX, 0), "18446744073709551615");
}

#[test]
fn table_rows() {
    let t = ReconstructedTransmission {
        header: UrbXractHeader { bus_id: 1, device_id: 12, endpoint_info: 0x02 },
        combined_payload: "line\n".to_string(),
        sources: vec![],
    };
    assert_eq!(transmission_row(3, &t, 80), vec!["3", "001", "012", "To Device", "line\\n"]);
    let t = ReconstructedTransmission {
        header: UrbXractHeader { bus_id: 2, device_id: 5, endpoint_info: 0x81 },
        combined_payload: "abcdefgh".to_string(),
        sources: vec![],
    };
    assert_eq!(transmission_row(10, &t, 53), vec!["10", "002", "005", "To Host", "abc..."]);
    assert_eq!(transmission_row(10, &t, 20)[4], "...");
    assert_eq!(transmission_row(10, &t, 58)[4], "abcdefgh");
}

#[test]
fn table_row_preview_counts_bytes() {
    let t = ReconstructedTransmission {
        header: UrbXractHeader { bus_id: 2, device_id: 5, endpoint_info: 0x81 },
        combined_payload: "\u{e9}\u{e9}\u{e9}".to_string(),
        sources: vec![],
    };
    assert_eq!(t.combined_payload.len(), 6);
    assert_eq!(transmission_row(1, &t, 54)[4], "\u{e9}\u{e9}...");
    assert_eq!(transmission_row(1, &t, 53)[4], "\u{e9}...");
    assert_eq!(transmission_row(1, &t, 51)[4], "...");
    assert_eq!(transmission_row(1, &t, 55)[4], "\u{e9}\u{e9}...");
    assert_eq!(transmission_row(1, &t, 56)[4], "\u{e9}\u{e9}\u{e9}");
    let t = ReconstructedTransmission { combined_payload: "a\u{1F600}b".to_string(), ..t };
    assert_eq!(transmission_row(1, &t, 53)[4], "a...");
    assert_eq!(transmission_row(1, &t, 55)[4], "a\u{1F600}...");
}

#[test]
fn navigation_keys() {
    assert_eq!(navigation(NavKey::Up, true), (TableMove::First, false));
    assert_eq!(navigation(NavKey::Up, false), (TableMove::Previous, false));
    assert_eq!(navigation(NavKey::Down, true), (TableMove::Last, true));
    assert_eq!(navigation(NavKey::Down, false), (TableMove::Next, false));
}
