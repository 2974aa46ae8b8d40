use falcon_key_file::{is_placeholder_code, parse_key_code, Key};

#[test]
fn placeholder_codes_are_unknown() {
    assert_eq!(parse_key_code(0), Key::Unknown);
    assert_eq!(parse_key_code(0xFFFF), Key::Unknown);
    assert!(is_placeholder_code(0));
    assert!(is_placeholder_code(0xFFFF));
}

#[test]
fn codes_without_a_key_are_unknown_but_no_placeholders() {
    for code in [
        54u16, 56, 84, 86, 89, 99, 103, 155, 158, 182, 202, 212, 222, 256, 0x8000, 0xFFFE,
    ] {
        assert_eq!(parse_key_code(code), Key::Unknown);
        assert!(!is_placeholder_code(code));
    }
}

#[test]
fn known_codes_resolve() {
    assert_eq!(parse_key_code(1), Key::Escape);
    assert_eq!(parse_key_code(2), Key::Num1);
    assert_eq!(parse_key_code(11), Key::Num0);
    assert_eq!(parse_key_code(16), Key::Q);
    assert_eq!(parse_key_code(26), Key::LeftBracket);
    assert_eq!(parse_key_code(27), Key::RightBracket);
    assert_eq!(parse_key_code(29), Key::LControl);
    assert_eq!(parse_key_code(42), Key::LShift);
    assert_eq!(parse_key_code(46), Key::C);
    assert_eq!(parse_key_code(48), Key::B);
    assert_eq!(parse_key_code(53), Key::Slash);
    assert_eq!(parse_key_code(55), Key::Multiply);
    assert_eq!(parse_key_code(57), Key::Space);
    assert_eq!(parse_key_code(68), Key::F10);
    assert_eq!(parse_key_code(83), Key::Decimal);
    assert_eq!(parse_key_code(87), Key::F11);
    assert_eq!(parse_key_code(88), Key::F12);
    assert_eq!(parse_key_code(100), Key::F13);
    assert_eq!(parse_key_code(102), Key::F15);
    assert_eq!(parse_key_code(156), Key::NumpadEnter);
    assert_eq!(parse_key_code(157), Key::RControl);
    assert_eq!(parse_key_code(181), Key::Divide);
    assert_eq!(parse_key_code(183), Key::PrintScr);
    assert_eq!(parse_key_code(199), Key::Home);
    assert_eq!(parse_key_code(200), Key::UpArrow);
    assert_eq!(parse_key_code(201), Key::PageUp);
    assert_eq!(parse_key_code(203), Key::LeftArrow);
    assert_eq!(parse_key_code(205), Key::RightArrow);
    assert_eq!(parse_key_code(207), Key::End);
    assert_eq!(parse_key_code(208), Key::DownArrow);
    assert_eq!(parse_key_code(211), Key::Delete);
    assert_eq!(parse_key_code(219), Key::LWin);
    assert_eq!(parse_key_code(221), Key::Apps);
}

#[test]
fn every_code_resolves_and_no_key_has_two_codes() {
    let mut seen: Vec<Key> = Vec::new();
    let mut known = 0;
    for code in 0..=u16::MAX {
        let key = parse_key_code(code);
        if key != Key::Unknown {
            known += 1;
            assert!(!seen.contains(&key));
            seen.push(key);
        }
    }
    assert_eq!(known, 103);
}
