//! Text shown by the terminal front end: page titles, the shortcuts footer,
//! escaped payload previews and table rows.

use vstd::prelude::*;
use crate::reconstructor::ReconstructedTransmission;
use crate::urb::is_host_to_device;
use vstd::utf8::{encode_utf8, decode_utf8, is_char_boundary, valid_utf8, encode_utf8_valid_utf8,
    encode_utf8_decode_utf8};
use vstd::string::StringSliceAdditionalSpecFns;

verus! {

/// Relies on `String::push`, which appends one character.
#[verifier::external_body]
fn push_char(s: &mut String, c: char)
    ensures
        final(s)@ == old(s)@.push(c),
{
    s.push(c)
}

/// Pages of the user interface.
#[derive(Clone, Copy, Debug, PartialEq, Eq, Structural)]
pub enum UIPage {
    MainTableView,
}

pub open spec fn page_name(p: UIPage) -> Seq<char> {
    match p {
        UIPage::MainTableView => "Packet Capture"@,
    }
}

/// Prefix of every window title.
pub const APP_TITLE_PREFIX: &'static str = "UrbXtract 0.0.1 > ";

impl UIPage {
    pub fn get_pagename(&self) -> (r: String)
        ensures
            r@ == page_name(*self),
    {
        match self {
            UIPage::MainTableView => String::from_str("Packet Capture"),
        }
    }

    /// Window title: the application name and version, then the page name.
    pub fn get_apptitle(&self) -> (r: String)
        ensures
            r@ == APP_TITLE_PREFIX@ + page_name(*self),
    {
        let page_name = self.get_pagename();
        String::from_str(APP_TITLE_PREFIX).concat(page_name.as_str())
    }
}

/// Upper-case hexadecimal digit of `n < 16`.
pub open spec fn hex_digit(n: int) -> char {
    seq!['0', '1', '2', '3', '4', '5', '6', '7', '8', '9', 'A', 'B', 'C', 'D', 'E', 'F'][n]
}

/// ASCII control characters: U+0000 to U+001F, and U+007F.
pub open spec fn is_ascii_control(c: char) -> bool {
    (c as u32) < 0x20 || (c as u32) == 0x7f
}

/// How one character is shown: line breaks, tabs and escapes by their
/// backslash names, other control characters as `\xHH`, the rest as is.
pub open spec fn escape_char(c: char) -> Seq<char> {
    if c == '\n' {
        seq!['\\', 'n']
    } else if c == '\r' {
        seq!['\\', 'r']
    } else if c == '\t' {
        seq!['\\', 't']
    } else if c == '\x1B' {
        seq!['\\', 'e']
    } else if is_ascii_control(c) {
        seq!['\\', 'x', hex_digit((c as u32) as int / 16), hex_digit((c as u32) as int % 16)]
    } else {
        seq![c]
    }
}

/// A text with every character shown as [`escape_char`] says.
pub open spec fn sanitized(s: Seq<char>) -> Seq<char>
    decreases s.len(),
{
    if s.len() == 0 {
        seq![]
    } else {
        sanitized(s.drop_last()) + escape_char(s.last())
    }
}

fn hex_digit_exec(n: u32) -> (r: char)
    requires
        n < 16,
    ensures
        r == hex_digit(n as int),
{
    let digits: [char; 16] = [
        '0', '1', '2', '3', '4', '5', '6', '7', '8', '9', 'A', 'B', 'C', 'D', 'E', 'F',
    ];
    assert(digits@ == seq![
        '0', '1', '2', '3', '4', '5', '6', '7', '8', '9', 'A', 'B', 'C', 'D', 'E', 'F',
    ]);
    digits[n as usize]
}

fn push_escaped(out: &mut String, c: char)
    ensures
        final(out)@ == old(out)@ + escape_char(c),
{
    let code = c as u32;
    if c == '\n' {
        push_char(out, '\\');
        push_char(out, 'n');
    } else if c == '\r' {
        push_char(out, '\\');
        push_char(out, 'r');
    } else if c == '\t' {
        push_char(out, '\\');
        push_char(out, 't');
    } else if c == '\x1B' {
        push_char(out, '\\');
        push_char(out, 'e');
    } else if code < 0x20 || code == 0x7f {
        push_char(out, '\\');
        push_char(out, 'x');
        push_char(out, hex_digit_exec(code / 16));
        push_char(out, hex_digit_exec(code % 16));
    } else {
        push_char(out, c);
    }
    assert(final(out)@ =~= old(out)@ + escape_char(c));
}

/// Escapes control characters so that a payload cannot disturb the terminal.
pub fn sanitize_ansi_escape(text: &str) -> (r: String)
    ensures
        r@ == sanitized(text@),
{
    let n = text.unicode_len();
    let mut out = String::new();
    let mut i: usize = 0;
    while i < n
        invariant
            n == text@.len(),
            i <= n,
            out@ == sanitized(text@.take(i as int)),
        decreases n - i,
    {
        let c = text.get_char(i);
        push_escaped(&mut out, c);
        assert(text@.take(i + 1).drop_last() =~= text@.take(i as int));
        i += 1;
    }
    assert(text@.take(n as int) =~= text@);
    out
}

/// The window's title bar.
pub struct TitleBar {
    pub title: String,
}

/// The footer listing keyboard shortcuts.
pub struct ShortcutsFooter {}

pub struct ShortcutsFooterState {
    pub shortcuts: Vec<String>,
}

/// Footer text: `|`, then ` <shortcut> |` for each shortcut in order.
pub open spec fn footer_text(shortcuts: Seq<Seq<char>>) -> Seq<char>
    decreases shortcuts.len(),
{
    if shortcuts.len() == 0 {
        seq!['|']
    } else {
        footer_text(shortcuts.drop_last()) + seq![' '] + shortcuts.last() + seq![' ', '|']
    }
}

impl ShortcutsFooterState {
    /// The shortcuts the main page offers.
    pub fn main_page() -> (r: ShortcutsFooterState)
        ensures
            r.shortcuts@.len() == 4,
            r.shortcuts@[0]@ == "More Info (↵)"@,
            r.shortcuts@[1]@ == "To Top (Shift + Up)"@,
            r.shortcuts@[2]@ == "To Bottom (Shift + Down)"@,
            r.shortcuts@[3]@ == "Quit (q)"@,
    {
        ShortcutsFooterState {
            shortcuts: vec![
                String::from_str("More Info (↵)"),
                String::from_str("To Top (Shift + Up)"),
                String::from_str("To Bottom (Shift + Down)"),
                String::from_str("Quit (q)"),
            ],
        }
    }

    pub fn panel_text(&self) -> (r: String)
        ensures
            r@ == footer_text(self.shortcuts@.map_values(|s: String| s@)),
    {
        let ghost shs = self.shortcuts@.map_values(|s: String| s@);
        let mut out = String::new();
        push_char(&mut out, '|');
        assert(out@ =~= seq!['|']);
        let mut i: usize = 0;
        while i < self.shortcuts.len()
            invariant
                i <= self.shortcuts.len(),
                shs == self.shortcuts@.map_values(|s: String| s@),
                out@ == footer_text(shs.take(i as int)),
            decreases self.shortcuts.len() - i,
        {
            let ghost before = out@;
            push_char(&mut out, ' ');
            out.append(self.shortcuts[i].as_str());
            push_char(&mut out, ' ');
            push_char(&mut out, '|');
            assert(shs.take(i + 1).drop_last() =~= shs.take(i as int));
            assert(out@ =~= before + seq![' '] + shs[i as int] + seq![' ', '|']);
            i += 1;
        }
        assert(shs.take(self.shortcuts.len() as int) =~= shs);
        out
    }
}

/// Decimal digits of `n`, most significant first.
pub open spec fn decimal(n: nat) -> Seq<char>
    decreases n,
{
    if n < 10 {
        seq![hex_digit(n as int)]
    } else {
        decimal(n / 10) + seq![hex_digit((n % 10) as int)]
    }
}

/// `s` preceded by as many `0` as it takes to reach `width` characters.
pub open spec fn zero_padded(s: Seq<char>, width: nat) -> Seq<char> {
    if s.len() < width {
        Seq::new((width - s.len()) as nat, |i: int| '0') + s
    } else {
        s
    }
}

fn push_decimal(out: &mut String, n: u64)
    ensures
        final(out)@ == old(out)@ + decimal(n as nat),
    decreases n,
{
    if n >= 10 {
        push_decimal(out, n / 10);
    }
    push_char(out, hex_digit_exec((n % 10) as u32));
    assert(final(out)@ =~= old(out)@ + decimal(n as nat));
}

/// `n` in decimal, zero-padded to at least `width` digits.
pub fn format_decimal(n: u64, width: usize) -> (r: String)
    ensures
        r@ == zero_padded(decimal(n as nat), width as nat),
{
    let mut digits = String::new();
    push_decimal(&mut digits, n);
    assert(digits@ =~= decimal(n as nat));
    let len = digits.as_str().unicode_len();
    if len >= width {
        return digits;
    }
    let mut out = String::new();
    let mut i: usize = 0;
    while i < width - len
        invariant
            len < width,
            len == digits@.len(),
            i <= width - len,
            out@ == Seq::new(i as nat, |j: int| '0'),
        decreases width - len - i,
    {
        push_char(&mut out, '0');
        i += 1;
        assert(out@ =~= Seq::new(i as nat, |j: int| '0'));
    }
    out.append(digits.as_str());
    out
}

/// Label of the direction column.
pub open spec fn direction_label(endpoint_info: u8) -> Seq<char> {
    if is_host_to_device(endpoint_info) {
        "To Device"@
    } else {
        "To Host"@
    }
}

/// Terminal columns taken by everything in a row but the payload preview.
pub const ROW_FIXED_WIDTH: u16 = 50;

/// How many payload bytes a row shows on a terminal `width` columns wide.
pub open spec fn preview_limit(width: u16) -> nat {
    if width > ROW_FIXED_WIDTH {
        (width - ROW_FIXED_WIDTH) as nat
    } else {
        0
    }
}

/// The largest character boundary of `bytes` that is at most `b`.
pub open spec fn boundary_at_most(bytes: Seq<u8>, b: int) -> int
    decreases b,
{
    if b <= 0 {
        0
    } else if is_char_boundary(bytes, b) {
        b
    } else {
        boundary_at_most(bytes, b - 1)
    }
}

/// The escaped payload. When its UTF-8 encoding is longer than `limit`
/// bytes, only the longest head of at most `limit` bytes that ends on a
/// character boundary is shown, followed by `...`.
pub open spec fn preview(payload: Seq<char>, limit: nat) -> Seq<char> {
    let bytes = encode_utf8(payload);
    if bytes.len() > limit {
        sanitized(decode_utf8(bytes.subrange(0, boundary_at_most(bytes, limit as int)))) + "..."@
    } else {
        sanitized(payload)
    }
}

fn char_boundary_at_most(s: &str, limit: usize) -> (r: usize)
    requires
        limit <= s.spec_bytes().len(),
    ensures
        r == boundary_at_most(s.spec_bytes(), limit as int),
        r <= limit,
        is_char_boundary(s.spec_bytes(), r as int),
{
    let ghost bytes = s.spec_bytes();
    proof {
        encode_utf8_valid_utf8(s@);
    }
    let mut b = limit;
    while b > 0 && !s.is_char_boundary(b)
        invariant
            b <= limit,
            valid_utf8(bytes),
            bytes == s.spec_bytes(),
            boundary_at_most(bytes, b as int) == boundary_at_most(bytes, limit as int),
        decreases b,
    {
        b -= 1;
    }
    b
}

/// The cells of one table row: number, bus, device, direction and preview.
pub fn transmission_row(number: u64, t: &ReconstructedTransmission, term_width: u16) -> (r: Vec<String>)
    ensures
        r@.len() == 5,
        r@[0]@ == decimal(number as nat),
        r@[1]@ == zero_padded(decimal(t.header.bus_id as nat), 3),
        r@[2]@ == zero_padded(decimal(t.header.device_id as nat), 3),
        r@[3]@ == direction_label(t.header.endpoint_info),
        r@[4]@ == preview(t.combined_payload@, preview_limit(term_width)),
{
    let limit: usize = if term_width > ROW_FIXED_WIDTH {
        (term_width - ROW_FIXED_WIDTH) as usize
    } else {
        0
    };
    let payload = t.combined_payload.as_str();
    let byte_len = payload.as_bytes().len();
    let shown = if byte_len > limit {
        let cut = char_boundary_at_most(payload, limit);
        let (head, _) = payload.split_at(cut);
        proof {
            encode_utf8_decode_utf8(head@);
        }
        assert(head@ == decode_utf8(encode_utf8(t.combined_payload@).subrange(0, cut as int)));
        sanitize_ansi_escape(head).concat("...")
    } else {
        sanitize_ansi_escape(payload)
    };
    let direction = if crate::urb::get_endpoint_direction(t.header.endpoint_info) {
        String::from_str("To Device")
    } else {
        String::from_str("To Host")
    };
    vec![
        format_decimal(number, 0),
        format_decimal(t.header.bus_id as u64, 3),
        format_decimal(t.header.device_id as u64, 3),
        direction,
        shown,
    ]
}

/// Keys that move the table selection.
#[derive(Clone, Copy, Debug, PartialEq, Eq, Structural)]
pub enum NavKey {
    Up,
    Down,
}

/// Selection moves of the table.
#[derive(Clone, Copy, Debug, PartialEq, Eq, Structural)]
pub enum TableMove {
    First,
    Previous,
    Last,
    Next,
}

/// Shift with an arrow jumps to the first or last row; a bare arrow moves by
/// one. The table keeps following new rows only after a jump to the last.
pub open spec fn navigation_spec(key: NavKey, shift: bool) -> (TableMove, bool) {
    match (key, shift) {
        (NavKey::Up, true) => (TableMove::First, false),
        (NavKey::Up, false) => (TableMove::Previous, false),
        (NavKey::Down, true) => (TableMove::Last, true),
        (NavKey::Down, false) => (TableMove::Next, false),
    }
}

/// The selection move for a key, and whether the table then follows new rows.
pub fn navigation(key: NavKey, shift: bool) -> (r: (TableMove, bool))
    ensures
        r == navigation_spec(key, shift),
{
    match key {
        NavKey::Up => if shift {
            (TableMove::First, false)
        } else {
            (TableMove::Previous, false)
        },
        NavKey::Down => if shift {
            (TableMove::Last, true)
        } else {
            (TableMove::Next, false)
        },
    }
}

} // verus!
