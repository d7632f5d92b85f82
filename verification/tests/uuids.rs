use tauri_plugin_blec::error::Error;
use tauri_plugin_blec::uuids::{characteristic_from_parse, parse_characteristic, uuid_text};

#[test]
fn parses_the_readme_characteristic() {
    assert_eq!(
        parse_characteristic("51FF12BB-3ED8-46E5-B4F9-D64E2FEC021B"),
        Ok(0x51ff12bb_3ed8_46e5_b4f9_d64e2fec021b)
    );
    assert_eq!(
        parse_characteristic("51ff12bb3ed846e5b4f9d64e2fec021b"),
        Ok(0x51ff12bb_3ed8_46e5_b4f9_d64e2fec021b)
    );
}

#[test]
fn refuses_a_text_that_is_no_uuid() {
    match parse_characteristic("not-a-uuid") {
        Err(Error::UuidParse(message)) => assert!(!message.is_empty()),
        other => panic!("unexpected {other:?}"),
    }
}

#[test]
fn formats_hyphenated_lower_case() {
    assert_eq!(uuid_text(0x51ff12bb_3ed8_46e5_b4f9_d64e2fec021b), "51ff12bb-3ed8-46e5-b4f9-d64e2fec021b");
    assert_eq!(uuid_text(0), "00000000-0000-0000-0000-000000000000");
}

#[test]
fn text_parses_back() {
    let v = 0x0000180f_0000_1000_8000_00805f9b34fb;
    assert_eq!(parse_characteristic(&uuid_text(v)), Ok(v));
}

#[test]
fn parse_outcome_mapping() {
    assert_eq!(characteristic_from_parse(Ok(5)), Ok(5));
    assert_eq!(characteristic_from_parse(Err("bad".to_string())), Err(Error::UuidParse("bad".to_string())));
}

#[test]
fn accepted_shapes_of_uuid_text() {
    let v = 0x51ff12bb_3ed8_46e5_b4f9_d64e2fec021b;
    assert_eq!(parse_characteristic("{51ff12bb-3ed8-46e5-b4f9-d64e2fec021b}"), Ok(v));
    assert_eq!(parse_characteristic("URN:uuid:51ff12bb-3ed8-46E5-b4f9-d64e2fec021b"), Ok(v));
    assert_eq!(parse_characteristic("51FF12BB3ED846E5B4F9D64E2FEC021B"), Ok(v));
}

#[test]
fn refused_shapes_of_uuid_text() {
    for text in [
        "",
        "51ff12bb-3ed8-46e5-b4f9-d64e2fec021",
        "51ff12bb+3ed8-46e5-b4f9-d64e2fec021b",
        "51ff12bg-3ed8-46e5-b4f9-d64e2fec021b",
        "[51ff12bb-3ed8-46e5-b4f9-d64e2fec021b]",
        "urx:uuid:51ff12bb-3ed8-46e5-b4f9-d64e2fec021b",
        "51ff12bb3ed846e5b4f9d64e2fec02éé",
    ] {
        assert!(matches!(parse_characteristic(text), Err(Error::UuidParse(_))), "{text}");
    }
}

#[test]
fn the_parse_error_carries_the_parsers_message() {
    let text = "51ff12bb-3ed8-46e5-b4f9-d64e2fec02zz";
    let expected = uuid::Uuid::parse_str(text).unwrap_err().to_string();
    assert_eq!(parse_characteristic(text), Err(Error::UuidParse(expected)));
}
