//! The typed descriptor grammar on canonical-tag documents.
use playmission::descriptor::{IntermediaryMission, Kind, Raw, parse_mission, parse_properties};
use playmission::properties::Properties;
use playmission::text::chars_of;
use playmission::value::Value;
use playmission::xmltok::scan_c_exec;

fn raw_of(kind: Kind) -> Raw {
    Raw {
        kind,
        properties: Properties::new(),
        datafile_name: None,
        orientation: None,
        bbox_min: None,
        bbox_max: None,
        start_position: None,
        start_orientation: None,
        data: None,
        expanded_size: None,
    }
}

fn clean_property(name: &str, vtype: &str, value: &str, flags: Option<&str>) -> String {
    let f = match flags {
        Some(f) => format!("<FLAGS>{}</FLAGS>", f),
        None => String::new(),
    };
    format!(
        "<PROPERTY><NAME>{}</NAME><VTYPE>{}</VTYPE><VALUE>{}</VALUE>{}</PROPERTY>",
        name, vtype, value, f
    )
}

#[test]
fn properties() {
    let mut expected = Properties::new();
    expected.insert_new("Active".to_string(), "true".to_string(), "VTYPE_BOOL", None).unwrap();
    expected
        .insert_new(
            "Name".to_string(),
            "Baronial_2Door".to_string(),
            "VTYPE_STRING",
            Some("READONLY | HIDDEN".to_string()),
        )
        .unwrap();
    expected
        .insert_new(
            "Size".to_string(),
            "1.0".to_string(),
            "VTYPE_FLOAT",
            Some("READONLY | HIDDEN".to_string()),
        )
        .unwrap();
    expected
        .insert_new("Initial Timer Setting".to_string(), "5090".to_string(), "VTYPE_INT", None)
        .unwrap();

    let mut text = String::from("<PROPERTIES>\n");
    text.push_str(&clean_property("Active", "VTYPE_BOOL", "true", None));
    text.push_str(&clean_property(
        "Name",
        "VTYPE_STRING",
        "Baronial_2Door",
        Some("READONLY | HIDDEN"),
    ));
    // the dialect allows a trailing float marker, stripped on parse
    text.push_str(&clean_property("Size", "VTYPE_FLOAT", "1.0f", Some("READONLY | HIDDEN")));
    text.push_str(&clean_property("Initial Timer Setting", "VTYPE_INT", "5090", None));
    text.push_str("\n</PROPERTIES>");

    let toks = scan_c_exec(&chars_of(&text)).unwrap();
    let (found, _) = parse_properties(&toks, 0).unwrap();
    assert_eq!(expected, found);
}

#[test]
fn from() {
    let mut mission_properties = Properties::new();
    mission_properties
        .insert_new(
            "Name".to_string(),
            "My G:::ame".to_string(),
            "VTYPE_STRING",
            Some("HIDDEN".to_string()),
        )
        .unwrap();
    mission_properties
        .insert_new(
            "Save TTS Audio Files".to_string(),
            "true".to_string(),
            "VTYPE_BOOL",
            Some("HIDDEN".to_string()),
        )
        .unwrap();

    let mut player_properties = Properties::new();
    player_properties
        .insert_new(
            "Name".to_string(),
            "Pla: yer".to_string(),
            "VTYPE_STRING",
            Some("HIDDEN".to_string()),
        )
        .unwrap();

    let mut pickup_properties = Properties::new();
    pickup_properties
        .insert_new("Active".to_string(), "true".to_string(), "VTYPE_BOOL", None)
        .unwrap();
    pickup_properties
        .insert_new(
            "Name".to_string(),
            "Ham".to_string(),
            "VTYPE_STRING",
            Some("READONLY | HIDDEN".to_string()),
        )
        .unwrap();

    let expected = IntermediaryMission {
        expanded_size: 244,
        blanking_plates: "eNpjY2BgEC7LTC7JL8pMzItPyknMy9bLT8piYDhwkIGhwYSBYYUjkN6vt9d6MxMOlR9AKrcQo3ICUCUIFEBV".to_string(),
        meta: "bb68tcb0fu097d1v".to_string(),
        properties: mission_properties,
        raws: vec![
            Raw {
                properties: player_properties,
                orientation: Some(
                    "0.8447118998, -0.3739055395, 0.3501844704, -0.1550072879".to_string(),
                ),
                start_position: Some("-18.2835502625, 0.8828631639, 16.6819877625".to_string()),
                start_orientation: Some(
                    "0.1426707655, -0.0290981755, 0.9693839550, -0.1977201551".to_string(),
                ),
                ..raw_of(Kind::Player)
            },
            Raw {
                datafile_name: Some("ham.pickup".to_string()),
                properties: pickup_properties,
                orientation: Some("1.0, 0.0, 0.0, 0.0".to_string()),
                ..raw_of(Kind::Pickup)
            },
        ],
    };

    let mut text = String::from("<GAME>\n<ExpandedSize>244</ExpandedSize>\n");
    text.push_str(
        "<BLANKINGPLATES>eNpjY2BgEC7LTC7JL8pMzItPyknMy9bLT8piYDhwkIGhwYSBYYUjkN6vt9d6MxMOlR9AKrcQo3ICUCUIFEBV</BLANKINGPLATES>\n",
    );
    text.push_str("<Meta>bb68tcb0fu097d1v</Meta>\n<PROPERTIES>\n");
    text.push_str(&clean_property("Name", "VTYPE_STRING", "My G:::ame", Some("HIDDEN")));
    text.push_str(&clean_property("Save TTS Audio Files", "VTYPE_BOOL", "true", Some("HIDDEN")));
    text.push_str("\n</PROPERTIES>\n<PLAYER>\n<PROPERTIES>");
    text.push_str(&clean_property("Name", "VTYPE_STRING", "Pla: yer", Some("HIDDEN")));
    text.push_str("</PROPERTIES>\n");
    text.push_str(
        "<ORIENTATION>0.8447118998, -0.3739055395, 0.3501844704, -0.1550072879</ORIENTATION>\n",
    );
    text.push_str("<START_POSITION>-18.2835502625, 0.8828631639, 16.6819877625</START_POSITION>\n");
    text.push_str(
        "<START_ORIENTATION>0.1426707655, -0.0290981755, 0.9693839550, -0.1977201551</START_ORIENTATION>\n",
    );
    text.push_str("</PLAYER>\n<PICKUP>\n<PROPERTIES>");
    text.push_str(&clean_property("Active", "VTYPE_BOOL", "true", None));
    text.push_str(&clean_property("Name", "VTYPE_STRING", "Ham", Some("READONLY | HIDDEN")));
    text.push_str("</PROPERTIES>\n<DATAFILE>ham.pickup</DATAFILE>\n");
    text.push_str("<ORIENTATION>1.0, 0.0, 0.0, 0.0</ORIENTATION>\n</PICKUP>\n</GAME>");

    let toks = scan_c_exec(&chars_of(&text)).unwrap();
    let found = parse_mission(&toks).unwrap();
    assert_eq!(expected, found);
}

#[test]
fn datafile() {
    let active_prop = Raw {
        datafile_name: Some("foo".to_string()),
        orientation: Some("bar".to_string()),
        ..raw_of(Kind::ActiveProp)
    };
    assert_eq!(Some("foo"), active_prop.datafile_name.as_deref());
    let media = raw_of(Kind::Media);
    assert_eq!(None, media.datafile_name.as_deref());
}

#[test]
fn expanded_size_must_be_numeric() {
    let text = "<GAME><ExpandedSize>many</ExpandedSize><BLANKINGPLATES>b</BLANKINGPLATES><Meta>m</Meta><PROPERTIES></PROPERTIES></GAME>";
    let toks = scan_c_exec(&chars_of(text)).unwrap();
    assert!(parse_mission(&toks).is_err());
}

#[test]
fn value_text_is_empty_leaf() {
    let text = "<PROPERTIES><PROPERTY><NAME>Description</NAME><VTYPE>VTYPE_STRING</VTYPE><VALUE></VALUE></PROPERTY></PROPERTIES>";
    let toks = scan_c_exec(&chars_of(text)).unwrap();
    let (found, _) = parse_properties(&toks, 0).unwrap();
    assert_eq!(found.get_value("Description").unwrap(), &Value::String(String::new()));
}
