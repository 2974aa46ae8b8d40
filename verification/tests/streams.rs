use falcon_key_file::{parse, Key, KeyFileError, LineError, Modifier};
use std::io::{Error, ErrorKind};

fn stream(lines: &[&str]) -> Vec<Result<String, Error>> {
    lines.iter().map(|line| Ok(String::from(*line))).collect()
}

#[test]
fn parse_basic_key_file() {
    let lines = stream(&[
        "# basic key file",
        "",
        "SimDoNothing -1 0 0XFFFFFFFF 0 0 0 -1 \"NOTHING\"",
        "AFElevatorTrimUp 0 0 0xC8 2 0 0 1 \"Trim - nose up\"",
        "AFBrakesToggle 0 0 0x30 0 0 0 1 \"Wheel brakes - toggle\"",
        "OTWBalanceIVCvsAIUp 0 0 0x1B 0 0 0 1 \"IVC volume up\"",
        "OTWBalanceIVCvsAIDown 0 0 0x1A 0 0 0 1 \"IVC volume down\"",
        "AFElevatorUp 0 0 0xC8 3 0 0 1 \"Stick - back\"",
        "SimPilotToggle 0 0 0x19 0 0x2E 4 1 \"Pilot - toggle\"",
        "OTWToggleFrameRate 0 0 0x21 0 0x2E 4 1 \"Frame rate - toggle\"",
    ]);
    let result = parse(String::from("basic.key"), lines);
    assert!(result.is_ok());

    let result = result.unwrap();

    let callback = result.callback("AFElevatorTrimUp");
    assert!(callback.is_some());
    let callback = callback.unwrap();
    println!("{:?}", callback);
    assert_eq!(callback.readable_key_code, Key::UpArrow);
    assert_eq!(callback.modifiers, vec![Modifier::LCONTROL]);

    let callback = result.callback("AFBrakesToggle").unwrap();
    assert_eq!(callback.readable_key_code, Key::B);
    assert_eq!(callback.modifiers, vec![]);

    let callback = result.callback("OTWBalanceIVCvsAIUp").unwrap();
    assert_eq!(callback.readable_key_code, Key::RightBracket);

    let callback = result.callback("OTWBalanceIVCvsAIDown").unwrap();
    assert_eq!(callback.readable_key_code, Key::LeftBracket);

    // let's find one with multiple modifiers
    let callback = result.callback("AFElevatorUp").unwrap();
    assert_eq!(callback.readable_key_code, Key::UpArrow);
    assert_eq!(
        callback.modifiers,
        vec![Modifier::LSHIFT, Modifier::LCONTROL]
    );

    // let's find a combo key
    let callback = result.callback("SimPilotToggle").unwrap();
    assert_eq!(callback.readable_key_code, Key::P);
    assert!(callback.modifiers.is_empty());

    assert_eq!(callback.readable_combo_key_code, Key::C);
    assert_eq!(callback.combo_modifiers, vec![Modifier::LALT]);

    // let's find another combo key
    let callback = result.callback("OTWToggleFrameRate").unwrap();
    assert_eq!(callback.readable_key_code, Key::F);
    assert!(callback.modifiers.is_empty());

    assert_eq!(callback.readable_combo_key_code, Key::C);
    assert_eq!(callback.combo_modifiers, vec![Modifier::LALT]);
}

#[test]
fn parse_t16000m_key_file() {
    let lines = stream(&[
        "# T16000M FCS",
        "SimMissileStep 0 0 0x35 1 0 0 1 \"Missile step\"",
        "SimHotasPinkyShift 3 8 0x0 0 0x0 0",
        "SimMIDSLVTInc 0 0 0x35 5 0 0 1 \"MIDS LVT - increase\"",
    ]);
    let result = parse(String::from("T16000M-FCS-Full.key"), lines);
    assert!(result.is_ok());

    let result = result.unwrap();

    // find one callback with SLASH
    let callback = result.callback("SimMissileStep");
    assert!(callback.is_some());
    let callback = callback.unwrap();
    println!("{:?}", callback);
    assert_eq!(callback.readable_key_code, Key::Slash);
    assert_eq!(callback.modifiers, vec![Modifier::LSHIFT]);

    // let's find the problematic new ones
    let callback = result.callback("SimMIDSLVTInc");
    assert!(callback.is_some());
    let callback = callback.unwrap();
    assert_eq!(callback.readable_key_code, Key::Slash);
    assert_eq!(callback.modifiers, vec![Modifier::LSHIFT, Modifier::LALT]);
}

#[test]
fn empty_stream_is_refused() {
    assert!(matches!(
        parse(String::from("empty.key"), Vec::new()),
        Err(KeyFileError::Empty)
    ));
    assert!(matches!(
        parse(String::new(), stream(&[])),
        Err(KeyFileError::Empty)
    ));
}

#[test]
fn stream_of_one_empty_line_gives_an_empty_registry() {
    let keyfile = parse(String::from("blank.key"), stream(&[""])).unwrap();
    assert_eq!(keyfile.describe(), "blank.key with 0 callbacks.");
    assert!(keyfile.callback("").is_none());
}

#[test]
fn brakes_line_is_parsed() {
    let keyfile = parse(
        String::from("brakes.key"),
        stream(&["AFBrakesToggle 0 0 48 0 65535 0"]),
    )
    .unwrap();
    let callback = keyfile.callback("AFBrakesToggle").unwrap();
    assert_eq!(callback.name, "AFBrakesToggle");
    assert_eq!(callback.readable_key_code, Key::B);
    assert!(callback.modifiers.is_empty());
    assert_eq!(callback.readable_combo_key_code, Key::Unknown);
}

#[test]
fn elevator_line_is_parsed() {
    let keyfile = parse(
        String::from("elevator.key"),
        stream(&["AFElevatorUp 0 0 200 3 65535 0"]),
    )
    .unwrap();
    let callback = keyfile.callback("AFElevatorUp").unwrap();
    assert_eq!(callback.readable_key_code, Key::UpArrow);
    assert_eq!(
        callback.modifiers,
        vec![Modifier::LSHIFT, Modifier::LCONTROL]
    );
}

#[test]
fn description_counts_binding_lines_only() {
    let keyfile = parse(
        String::from("mixed.key"),
        stream(&[
            "# header",
            "AFBrakesToggle 0 0 48 0 65535 0",
            "SimDoNothing 0 0 0xFFFF 0 0 0",
            "",
            "   # another comment",
            "AFElevatorUp 0 0 200 3 65535 0",
            "SimDoNothing",
            "AFGearToggle 0 0 0x22 0 0 0",
            "#AFNotBound 0 0 1 0 0 0",
            "AFOtherKind 0 1 0x22 0 0 0",
        ]),
    )
    .unwrap();
    assert_eq!(keyfile.describe(), "mixed.key with 3 callbacks.");
    assert!(keyfile.callback("SimDoNothing").is_none());
    assert!(keyfile.callback("#AFNotBound").is_none());
    assert!(keyfile.callback("AFOtherKind").is_none());
    assert_eq!(
        keyfile.propose_callback_names(String::from(""), 10),
        vec!["AFElevatorUp", "AFGearToggle", "AFBrakesToggle"]
    );
}

#[test]
fn first_line_counts_like_any_other() {
    let keyfile = parse(
        String::from("first.key"),
        stream(&["AFGearToggle 0 0 0x22 0 0 0", "# trailer"]),
    )
    .unwrap();
    assert_eq!(keyfile.callback("AFGearToggle").unwrap().readable_key_code, Key::G);
}

#[test]
fn later_line_replaces_earlier_of_the_same_name() {
    let keyfile = parse(
        String::from("twice.key"),
        stream(&[
            "AFGearToggle 0 0 0x22 0 0 0",
            "AFBrakesToggle 0 0 48 0 65535 0",
            "AFGearToggle 0 0 0x23 1 0 0",
        ]),
    )
    .unwrap();
    assert_eq!(keyfile.describe(), "twice.key with 2 callbacks.");
    let callback = keyfile.callback("AFGearToggle").unwrap();
    assert_eq!(callback.readable_key_code, Key::H);
    assert_eq!(callback.modifiers, vec![Modifier::LSHIFT]);
}

#[test]
fn unreadable_line_fails_the_parse() {
    let lines = vec![
        Ok(String::from("AFBrakesToggle 0 0 48 0 65535 0")),
        Err(Error::new(ErrorKind::InvalidData, "stream did not contain valid UTF-8")),
        Ok(String::from("AFElevatorUp 0 0 200 3 65535 0")),
    ];
    match parse(String::from("broken.key"), lines) {
        Err(KeyFileError::ReadError(e)) => {
            assert_eq!(e.kind(), ErrorKind::InvalidData);
            assert_eq!(e.to_string(), "stream did not contain valid UTF-8");
        }
        other => panic!("unexpected: {:?}", other),
    }
}

#[test]
fn malformed_line_fails_the_parse_with_its_number() {
    match parse(
        String::from("bad.key"),
        stream(&["# one", "AFBrakesToggle 0 0 48 0 65535 0", "AFGearToggle 0 0 G 0 0 0"]),
    ) {
        Err(KeyFileError::ParseError { line, cause: LineError::BadNumber(token) }) => {
            assert_eq!(line, 3);
            assert_eq!(token, "G");
        }
        other => panic!("unexpected: {:?}", other),
    }
    match parse(String::from("short.key"), stream(&["AFGearToggle 0 0 0x22"])) {
        Err(KeyFileError::ParseError { line, cause: LineError::TooFewTokens }) => {
            assert_eq!(line, 1);
        }
        other => panic!("unexpected: {:?}", other),
    }
    match parse(String::from("blank.key"), stream(&["# one", " "])) {
        Err(KeyFileError::ParseError { line, cause: LineError::TooFewTokens }) => {
            assert_eq!(line, 2);
        }
        other => panic!("unexpected: {:?}", other),
    }
}

#[test]
fn first_failure_decides() {
    let lines = vec![
        Ok(String::from("AFGearToggle 0 0 G 0 0 0")),
        Err(Error::new(ErrorKind::Other, "later")),
    ];
    assert!(matches!(
        parse(String::from("a.key"), lines),
        Err(KeyFileError::ParseError { line: 1, cause: LineError::BadNumber(_) })
    ));
    let lines = vec![
        Err(Error::new(ErrorKind::Other, "sooner")),
        Ok(String::from("AFGearToggle 0 0 G 0 0 0")),
    ];
    assert!(matches!(
        parse(String::from("b.key"), lines),
        Err(KeyFileError::ReadError(_))
    ));
}
