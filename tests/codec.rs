use termoil::codec::{
    dsr_reply, encode_char, encode_key, encode_xterm_mouse, mouse_event, mouse_modifier_bits, mouse_report,
    push_decimal, scan_dsr, Key, Modifiers, MouseButton, MouseEncoding, MouseKind, MouseMode,
};

const NO_MODS: Modifiers = Modifiers { shift: false, alt: false, control: false };

#[test]
fn key_table() {
    let table: Vec<(Key, &[u8])> = vec![
        (Key::Enter, b"\r"),
        (Key::Backspace, &[127]),
        (Key::Tab, b"\t"),
        (Key::Up, b"\x1b[A"),
        (Key::Down, b"\x1b[B"),
        (Key::Right, b"\x1b[C"),
        (Key::Left, b"\x1b[D"),
        (Key::Esc, &[27]),
        (Key::PageUp, b"\x1b[5~"),
        (Key::PageDown, b"\x1b[6~"),
        (Key::Home, b"\x1b[H"),
        (Key::End, b"\x1b[F"),
        (Key::Delete, b"\x1b[3~"),
        (Key::Char('a'), b"a"),
    ];
    for (key, bytes) in table {
        assert_eq!(encode_key(key, false), Some(bytes.to_vec()), "{:?}", key);
    }
}

#[test]
fn control_characters() {
    assert_eq!(encode_key(Key::Char('a'), true), Some(vec![0x01]));
    assert_eq!(encode_key(Key::Char('c'), true), Some(vec![0x03]));
    assert_eq!(encode_key(Key::Char('Z'), true), Some(vec![0x1a]));
    assert_eq!(encode_key(Key::Char('['), true), Some(vec![0x1b]));
}

#[test]
fn unknown_key_is_dropped() {
    assert_eq!(encode_key(Key::Other, false), None);
    assert_eq!(encode_key(Key::Other, true), None);
}

#[test]
fn characters_encode_as_utf8() {
    for c in ['a', 'é', '€', '➜', '😀', '\u{7f}', '\u{80}', '\u{7ff}', '\u{800}', '\u{ffff}', '\u{10000}', '\u{10ffff}'] {
        assert_eq!(encode_char(c), c.to_string().into_bytes(), "{:?}", c);
        assert_eq!(encode_key(Key::Char(c), false), Some(c.to_string().into_bytes()));
    }
}

#[test]
fn decimal_digits() {
    for n in [0u32, 7, 10, 99, 100, 223, 65535, 65536, u32::MAX] {
        let mut out = b"x".to_vec();
        push_decimal(&mut out, n);
        assert_eq!(out, format!("x{}", n).into_bytes());
    }
}

#[test]
fn modifier_bits() {
    assert_eq!(mouse_modifier_bits(NO_MODS), 0);
    assert_eq!(mouse_modifier_bits(Modifiers { shift: true, alt: false, control: false }), 4);
    assert_eq!(mouse_modifier_bits(Modifiers { shift: false, alt: true, control: false }), 8);
    assert_eq!(mouse_modifier_bits(Modifiers { shift: false, alt: false, control: true }), 16);
    assert_eq!(mouse_modifier_bits(Modifiers { shift: true, alt: true, control: true }), 28);
}

#[test]
fn sgr_press_and_release() {
    let triples = [(0u8, 1u16, 1u16), (2, 80, 24), (35, 223, 224), (67, 1000, 500), (255, u16::MAX, u16::MAX)];
    for (cb, x, y) in triples {
        assert_eq!(
            encode_xterm_mouse(MouseEncoding::Sgr, cb, x, y, false),
            Some(format!("\x1b[<{};{};{}M", cb, x, y).into_bytes())
        );
        assert_eq!(
            encode_xterm_mouse(MouseEncoding::Sgr, cb, x, y, true),
            Some(format!("\x1b[<{};{};{}m", cb, x, y).into_bytes())
        );
    }
}

#[test]
fn legacy_encoding_offsets_by_32() {
    assert_eq!(encode_xterm_mouse(MouseEncoding::Default, 0, 1, 1, false), Some(vec![0x1b, b'[', b'M', 32, 33, 33]));
    assert_eq!(encode_xterm_mouse(MouseEncoding::Utf8, 3, 223, 223, true), Some(vec![0x1b, b'[', b'M', 35, 255, 255]));
    assert_eq!(encode_xterm_mouse(MouseEncoding::Default, 223, 10, 10, false), Some(vec![0x1b, b'[', b'M', 255, 42, 42]));
}

#[test]
fn legacy_encoding_refuses_wide_coordinates() {
    assert_eq!(encode_xterm_mouse(MouseEncoding::Default, 0, 224, 1, false), None);
    assert_eq!(encode_xterm_mouse(MouseEncoding::Default, 0, 1, 224, false), None);
    assert_eq!(encode_xterm_mouse(MouseEncoding::Utf8, 0, 300, 1, false), None);
    assert_eq!(encode_xterm_mouse(MouseEncoding::Default, 224, 1, 1, false), None);
}

#[test]
fn event_codes_by_mode() {
    let left = MouseButton::Left;
    assert_eq!(mouse_event(MouseMode::Press, MouseKind::Down(MouseButton::Right), 4), Some((6, false)));
    assert_eq!(mouse_event(MouseMode::Press, MouseKind::Up(left), 16), Some((19, true)));
    assert_eq!(mouse_event(MouseMode::Press, MouseKind::Drag(left), 0), None);
    assert_eq!(mouse_event(MouseMode::PressRelease, MouseKind::Drag(left), 0), None);
    assert_eq!(mouse_event(MouseMode::ButtonMotion, MouseKind::Drag(MouseButton::Middle), 0), Some((33, false)));
    assert_eq!(mouse_event(MouseMode::AnyMotion, MouseKind::Drag(left), 8), Some((40, false)));
    assert_eq!(mouse_event(MouseMode::ButtonMotion, MouseKind::Moved, 0), None);
    assert_eq!(mouse_event(MouseMode::AnyMotion, MouseKind::Moved, 4), Some((39, false)));
    assert_eq!(mouse_event(MouseMode::Press, MouseKind::ScrollUp, 0), Some((64, false)));
    assert_eq!(mouse_event(MouseMode::Press, MouseKind::ScrollDown, 0), Some((65, false)));
    assert_eq!(mouse_event(MouseMode::Press, MouseKind::ScrollLeft, 0), Some((66, false)));
    assert_eq!(mouse_event(MouseMode::Press, MouseKind::ScrollRight, 16), Some((83, false)));
}

#[test]
fn mouse_report_inside_and_on_border() {
    let down = MouseKind::Down(MouseButton::Left);
    let sgr = MouseEncoding::Sgr;
    assert_eq!(mouse_report(MouseMode::Press, sgr, down, NO_MODS, 5, 3, 80, 24), Some(b"\x1b[<0;5;3M".to_vec()));
    assert_eq!(mouse_report(MouseMode::Off, sgr, down, NO_MODS, 5, 3, 80, 24), None);
    assert_eq!(mouse_report(MouseMode::Press, sgr, down, NO_MODS, 0, 3, 80, 24), None);
    assert_eq!(mouse_report(MouseMode::Press, sgr, down, NO_MODS, 5, 0, 80, 24), None);
    assert_eq!(mouse_report(MouseMode::Press, sgr, down, NO_MODS, 79, 3, 80, 24), None);
    assert_eq!(mouse_report(MouseMode::Press, sgr, down, NO_MODS, 5, 23, 80, 24), None);
    assert_eq!(mouse_report(MouseMode::Press, sgr, down, NO_MODS, 78, 22, 80, 24), Some(b"\x1b[<0;78;22M".to_vec()));
    assert_eq!(mouse_report(MouseMode::Press, sgr, down, NO_MODS, 1, 1, 2, 24), None);
    let shift = Modifiers { shift: true, alt: false, control: false };
    assert_eq!(
        mouse_report(MouseMode::Press, MouseEncoding::Default, MouseKind::Up(MouseButton::Left), shift, 10, 5, 80, 24),
        Some(vec![0x1b, b'[', b'M', 32 + 7, 42, 37])
    );
    assert_eq!(mouse_report(MouseMode::Press, MouseEncoding::Default, down, NO_MODS, 230, 5, 300, 24), None);
}

#[test]
fn dsr_in_one_chunk() {
    let (count, tail) = scan_dsr(&Vec::new(), &b"ab\x1b[6nxy\x1b[6n".to_vec());
    assert_eq!(count, 2);
    assert_eq!(tail, b"[6n".to_vec());
}

#[test]
fn dsr_split_across_chunks_counted_once() {
    let (c1, t1) = scan_dsr(&Vec::new(), &b"hello\x1b[6".to_vec());
    assert_eq!(c1, 0);
    assert_eq!(t1, b"\x1b[6".to_vec());
    let (c2, t2) = scan_dsr(&t1, &b"n world".to_vec());
    assert_eq!(c2, 1);
    assert_eq!(t2, b"rld".to_vec());
    let (c3, _) = scan_dsr(&t2, &b"more".to_vec());
    assert_eq!(c3, 0);
}

#[test]
fn dsr_split_every_way() {
    let stream = b"..\x1b[6n..".to_vec();
    for cut in 0..=stream.len() {
        let (c1, t1) = scan_dsr(&Vec::new(), &stream[..cut].to_vec());
        let (c2, _) = scan_dsr(&t1, &stream[cut..].to_vec());
        assert_eq!(c1 + c2, 1, "cut at {}", cut);
    }
}

#[test]
fn dsr_short_inputs() {
    assert_eq!(scan_dsr(&Vec::new(), &Vec::new()), (0, Vec::new()));
    assert_eq!(scan_dsr(&b"\x1b".to_vec(), &b"[".to_vec()), (0, b"\x1b[".to_vec()));
    assert_eq!(scan_dsr(&b"\x1b[6".to_vec(), &b"n".to_vec()), (1, b"[6n".to_vec()));
}

#[test]
fn dsr_reply_is_one_based() {
    assert_eq!(dsr_reply(0, 0), b"\x1b[1;1R".to_vec());
    assert_eq!(dsr_reply(23, 79), b"\x1b[24;80R".to_vec());
    assert_eq!(dsr_reply(u16::MAX, 9), b"\x1b[65536;10R".to_vec());
}
