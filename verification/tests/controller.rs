//! The edit controller: exact undo and redo, the redo-clearing rule, the
//! history bound, and the save round trip.
use std::io::Write;
use playmission::tea::{Event, TeaHandler};
use playmission::value::Value;

fn dirty_property(name: &str, vtype: &str, value: &str, flags: Option<&str>) -> String {
    let f = match flags {
        Some(f) => format!("<ATTR: FLAGS >{}</ATTR>", f),
        None => String::new(),
    };
    format!(
        "<OBJECT: PROPERTY ><ATTR: NAME >{}</ATTR><ATTR: VTYPE >{}</ATTR><ATTR: VALUE >{}</ATTR>{}</OBJECT>",
        name, vtype, value, f
    )
}

fn fixture_zip() -> Vec<u8> {
    let mut descriptor = String::from("<OBJECT: GAME ><ATTR: ExpandedSize >244</ATTR>");
    descriptor.push_str("<ATTR: BLANKINGPLATES >plates</ATTR>");
    descriptor.push_str("<ATTR: Meta >bb68tcb0fu097d1v</ATTR>");
    descriptor.push_str("<OBJECT: PROPERTIES >");
    descriptor.push_str(&dirty_property("Name", "VTYPE_STRING", "My Game", Some("HIDDEN")));
    descriptor.push_str("</OBJECT>");
    descriptor.push_str("<OBJECT: PROP ><OBJECT: PROPERTIES >");
    descriptor.push_str(&dirty_property("Active", "VTYPE_BOOL", "true", None));
    descriptor.push_str(&dirty_property("Name", "VTYPE_STRING", "Barrier Bars", None));
    descriptor.push_str(&dirty_property("Size", "VTYPE_INT", "4", None));
    descriptor.push_str("</OBJECT><ATTR: DATAFILE >barrier_bars.prop</ATTR>");
    descriptor.push_str("<ATTR: ORIENTATION >1.0, 0.0, 0.0, 0.0</ATTR></OBJECT>");
    descriptor.push_str("</OBJECT>");

    let mut template = String::from("<OBJECT: PROPERTIES >");
    template.push_str(&dirty_property("Description", "VTYPE_STRING", "defaulted", Some("READONLY,HIDDEN")));
    template.push_str(&dirty_property("Size", "VTYPE_FLOAT", "1.0", Some("READONLY,HIDDEN")));
    template.push_str("</OBJECT>");

    let mut z = zip::ZipWriter::new(std::io::Cursor::new(Vec::new()));
    let opts = zip::write::SimpleFileOptions::default();
    z.start_file("game.mission", opts).unwrap();
    z.write_all(descriptor.as_bytes()).unwrap();
    z.start_file("barrier_bars.prop", opts).unwrap();
    z.write_all(b"Size = 1.0\n").unwrap();
    z.start_file("Default.prop", opts).unwrap();
    z.write_all(template.as_bytes()).unwrap();
    z.finish().unwrap().into_inner()
}

fn handler_and_id() -> (TeaHandler, u128) {
    let h = TeaHandler::from_buffer(fixture_zip()).unwrap();
    let listing = h.display_objects();
    assert_eq!(listing.len(), 1);
    let id = listing[0].0;
    (h, id)
}

fn property_of(h: &TeaHandler, id: u128, key: &str) -> Value {
    h.get_object(id).unwrap().properties().get_value(key).unwrap().clone()
}

// an update then an undo restores the prior value exactly; the following
// redo restores the updated value exactly
#[test]
fn update_undo_redo() {
    let (mut h, id) = handler_and_id();
    assert_eq!(property_of(&h, id, "Size"), Value::Int(4));

    h.event(Event::UpdateProperty { uuid: id, key: "Size".to_string(), value: "9".to_string() });
    assert!(h.display_status().is_none());
    // the declared type is preserved across the edit
    assert_eq!(property_of(&h, id, "Size"), Value::Int(9));

    h.event(Event::Undo);
    assert!(h.display_status().is_none());
    assert_eq!(property_of(&h, id, "Size"), Value::Int(4));

    h.event(Event::Redo);
    assert!(h.display_status().is_none());
    assert_eq!(property_of(&h, id, "Size"), Value::Int(9));
}

#[test]
fn datafile_update_undo() {
    let (mut h, id) = handler_and_id();
    let get = |h: &TeaHandler| {
        h.get_object(id).unwrap().datafile().get_value("Size").unwrap().clone()
    };
    assert_eq!(get(&h), Value::Float("1.0".to_string()));
    h.event(Event::UpdateDatafile { uuid: id, key: "Size".to_string(), value: "2.5".to_string() });
    assert_eq!(get(&h), Value::Float("2.5".to_string()));
    h.event(Event::Undo);
    assert_eq!(get(&h), Value::Float("1.0".to_string()));
}

// a fresh mutating event after an undo clears the redo history
#[test]
fn new_event_clears_redo() {
    let (mut h, id) = handler_and_id();
    h.event(Event::UpdateProperty { uuid: id, key: "Size".to_string(), value: "9".to_string() });
    h.event(Event::Undo);
    assert_eq!(h.history_lens().1, 1);
    h.event(Event::UpdateProperty { uuid: id, key: "Size".to_string(), value: "7".to_string() });
    assert_eq!(h.history_lens().1, 0);
    h.event(Event::Redo);
    assert!(h.display_status().is_some());
    assert_eq!(property_of(&h, id, "Size"), Value::Int(7));
}

// the undo history never exceeds its bound
#[test]
fn undo_history_bounded() {
    let (mut h, id) = handler_and_id();
    let mut i: u32 = 0;
    while i < 250 {
        h.event(Event::UpdateProperty {
            uuid: id,
            key: "Size".to_string(),
            value: format!("{}", i),
        });
        assert!(h.history_lens().0 <= 200);
        i += 1;
    }
    assert_eq!(h.history_lens().0, 200);
}

#[test]
fn key_chord_undoes() {
    let (mut h, id) = handler_and_id();
    h.event(Event::UpdateProperty { uuid: id, key: "Size".to_string(), value: "9".to_string() });
    h.event(Event::Keypress { code: "KeyZ".to_string(), shift: false });
    assert_eq!(property_of(&h, id, "Size"), Value::Int(4));
    h.event(Event::Keypress { code: "KeyZ".to_string(), shift: true });
    assert_eq!(property_of(&h, id, "Size"), Value::Int(9));
    // any other chord is a no-op
    h.event(Event::Keypress { code: "KeyQ".to_string(), shift: false });
    assert_eq!(property_of(&h, id, "Size"), Value::Int(9));
}

#[test]
fn unknown_identifier_sets_status() {
    let (mut h, id) = handler_and_id();
    h.event(Event::UpdateProperty {
        uuid: id.wrapping_add(1),
        key: "Size".to_string(),
        value: "9".to_string(),
    });
    assert!(h.display_status().is_some());
    assert_eq!(property_of(&h, id, "Size"), Value::Int(4));
}

#[test]
fn empty_undo_sets_status() {
    let (mut h, _) = handler_and_id();
    h.event(Event::Undo);
    assert_eq!(h.display_status().map(|s| s.as_str()), Some("nothing to undo"));
}

#[test]
fn file_update_undo() {
    let (mut h, id) = handler_and_id();
    h.event(Event::UpdateFile {
        uuid: id,
        key: "extra.bin".to_string(),
        buffer: b"first".to_vec(),
    });
    h.event(Event::UpdateFile {
        uuid: id,
        key: "extra.bin".to_string(),
        buffer: b"second".to_vec(),
    });
    let get = |h: &TeaHandler| {
        h.get_object(id).unwrap().files().get("extra.bin").map(|b| b.clone())
    };
    assert_eq!(get(&h), Some(b"second".to_vec()));
    h.event(Event::Undo);
    assert_eq!(get(&h), Some(b"first".to_vec()));
}

#[test]
fn display_accessors() {
    let (mut h, id) = handler_and_id();
    let props = h.display_properties(id).unwrap();
    assert!(props.contains(&("Size".to_string(), Value::Int(4))));
    let df = h.display_datafile(id).unwrap();
    assert!(df.contains(&("Description".to_string(), Value::String("defaulted".to_string()))));
    assert_eq!(h.display_files(id).unwrap(), Vec::<String>::new());
    h.event(Event::UpdateFile { uuid: id, key: "extra.bin".to_string(), buffer: b"x".to_vec() });
    assert_eq!(h.display_files(id).unwrap(), vec!["extra.bin".to_string()]);
    assert_eq!(h.display_file(id, "extra.bin").unwrap(), b"x".to_vec());
    assert!(matches!(
        h.display_file(id, "absent.bin").unwrap_err(),
        playmission::tea::TeaError::NoFile
    ));
    assert!(h.display_properties(id.wrapping_add(1)).is_err());
}

// saving produces a complete archive that loads back to the same mission
#[test]
fn save_round_trip() {
    let (mut h, id) = handler_and_id();
    h.event(Event::UpdateProperty { uuid: id, key: "Size".to_string(), value: "9".to_string() });
    let bytes = h.event(Event::Save).expect("save produced no archive");
    assert!(h.display_status().is_none());

    let h2 = TeaHandler::from_buffer(bytes).unwrap();
    let listing = h2.display_objects();
    assert_eq!(listing.len(), 1);
    let id2 = listing[0].0;
    assert_eq!(property_of(&h2, id2, "Size"), Value::Int(9));
    assert_eq!(
        h2.get_object(id2).unwrap().datafile().get_value("Description").unwrap(),
        &Value::String("defaulted".to_string()),
    );
    assert_eq!(
        h2.mission().properties().get_value("Meta").unwrap(),
        &Value::String("bb68tcb0fu097d1v".to_string()),
    );
}
