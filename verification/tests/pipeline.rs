//! The whole load pipeline on a real archive, and the construction and
//! collapse round trip.
use std::io::Write;
use playmission::descriptor::{Kind, Raw};
use playmission::filemap::Filemap;
use playmission::mission::to_objects;
use playmission::properties::Properties;
use playmission::structs::load_intermediary;
use playmission::value::Value;

fn dirty_property(name: &str, vtype: &str, value: &str, flags: Option<&str>) -> String {
    let f = match flags {
        Some(f) => format!("<ATTR: FLAGS >{}</ATTR>", f),
        None => String::new(),
    };
    format!(
        "<OBJECT: PROPERTY ><ATTR: NAME >{}</ATTR><ATTR: VTYPE >{}</ATTR><ATTR: VALUE >{}</ATTR>{}</OBJECT>",
        name, vtype, value, f
    )
}

fn default_prop_template() -> Vec<u8> {
    let mut s = String::from("<OBJECT: PROPERTIES >");
    s.push_str(&dirty_property("Active", "VTYPE_BOOL", "true", Some("READONLY,HIDDEN")));
    s.push_str(&dirty_property("Name", "VTYPE_STRING", "", Some("READONLY,HIDDEN")));
    s.push_str(&dirty_property("Description", "VTYPE_STRING", "defaulted", Some("READONLY,HIDDEN")));
    s.push_str(&dirty_property("Object", "VTYPE_STRING", "", Some("READONLY,HIDDEN")));
    s.push_str(&dirty_property("Categories", "VTYPE_STRING", "", Some("READONLY,HIDDEN")));
    s.push_str(&dirty_property("Size", "VTYPE_FLOAT", "1.0", Some("READONLY,HIDDEN")));
    s.push_str("</OBJECT>");
    s.into_bytes()
}

fn prop_entry(name: &str, datafile: &str) -> String {
    let mut s = String::from("<OBJECT: PROP ><OBJECT: PROPERTIES >");
    s.push_str(&dirty_property("Active", "VTYPE_BOOL", "true", None));
    s.push_str(&dirty_property("Name", "VTYPE_STRING", name, Some("READONLY | HIDDEN")));
    s.push_str("</OBJECT>");
    s.push_str(&format!("<ATTR: DATAFILE >{}</ATTR>", datafile));
    s.push_str("<ATTR: ORIENTATION >1.0, 0.0, 0.0, 0.0</ATTR></OBJECT>");
    s
}

fn mission_descriptor() -> Vec<u8> {
    let mut s = String::from("<OBJECT: GAME ><ATTR: ExpandedSize >244</ATTR>");
    s.push_str("<ATTR: BLANKINGPLATES >eNpjY2BgEC7LTC7JL8pMzItPyknMy9bLT8piYDhwkIGhwYSBYYUjkN6vt9d6MxMOlR9AKrcQo3IC</ATTR>");
    s.push_str("<ATTR: Meta >bb68tcb0fu097d1v</ATTR>");
    s.push_str("<OBJECT: PROPERTIES >");
    s.push_str(&dirty_property("Name", "VTYPE_STRING", "My Game", Some("HIDDEN")));
    s.push_str(&dirty_property("Save TTS Audio Files", "VTYPE_BOOL", "true", Some("HIDDEN")));
    s.push_str("</OBJECT>");
    s.push_str(&prop_entry("Barrier Bars", "barrier_bars.prop"));
    s.push_str(&prop_entry("Bookcase", "mg_bookcase.prop"));
    s.push_str("</OBJECT>");
    s.into_bytes()
}

fn props_zip() -> Vec<u8> {
    let mut z = zip::ZipWriter::new(std::io::Cursor::new(Vec::new()));
    let opts = zip::write::SimpleFileOptions::default();
    let entries: Vec<(&str, Vec<u8>)> = vec![
        ("game.mission", mission_descriptor()),
        (
            "barrier_bars.prop",
            b"Active = true\nName = Barrier Bars\nObject = Barrier_Bars.obj\nCategories = Plain\nSize = 1.0\n"
                .to_vec(),
        ),
        (
            "mg_bookcase.prop",
            b"Active = true\nName = Bookcase\nObject = MG_Bookcase.obj\nCategories = Victorian\nSize = 1.0\n"
                .to_vec(),
        ),
        ("Default.prop", default_prop_template()),
        ("Barrier_Bars.obj", b"mesh one".to_vec()),
        ("MG_Bookcase.obj", b"mesh two".to_vec()),
    ];
    for (name, bytes) in entries {
        z.start_file(name, opts).unwrap();
        z.write_all(&bytes).unwrap();
    }
    z.finish().unwrap().into_inner()
}

fn expected_prop_properties(name: &str) -> Properties {
    let mut p = Properties::new();
    p.insert_new("Active".to_string(), "true".to_string(), "VTYPE_BOOL", None).unwrap();
    p.insert_new(
        "Name".to_string(),
        name.to_string(),
        "VTYPE_STRING",
        Some("READONLY | HIDDEN".to_string()),
    ).unwrap();
    p.insert_new(
        "Orientation".to_string(),
        "1.0, 0.0, 0.0, 0.0".to_string(),
        "VTYPE_STRING",
        None,
    ).unwrap();
    p
}

fn expected_prop_datafile(name: &str, object: &str, categories: &str) -> Properties {
    let df = Some("READONLY,HIDDEN".to_string());
    let mut p = Properties::new();
    p.insert_new("Active".to_string(), "true".to_string(), "VTYPE_BOOL", df.clone()).unwrap();
    p.insert_new("Name".to_string(), name.to_string(), "VTYPE_STRING", df.clone()).unwrap();
    p.insert_new("Description".to_string(), "defaulted".to_string(), "VTYPE_STRING", df.clone())
        .unwrap();
    p.insert_new("Object".to_string(), object.to_string(), "VTYPE_STRING", df.clone()).unwrap();
    p.insert_new("Categories".to_string(), categories.to_string(), "VTYPE_STRING", df.clone())
        .unwrap();
    p.insert_new("Size".to_string(), "1.0".to_string(), "VTYPE_FLOAT", df.clone()).unwrap();
    p
}

#[test]
fn playmission_props() {
    let (objects, missionobject) = to_objects(&props_zip()).unwrap();

    assert_eq!(objects.len(), 2);
    let p1 = &objects[0];
    assert_eq!(p1.kind(), Kind::Prop);
    assert_eq!(p1.properties(), &expected_prop_properties("Barrier Bars"));
    assert_eq!(p1.datafile(), &expected_prop_datafile("Barrier Bars", "Barrier_Bars.obj", "Plain"));
    let p2 = &objects[1];
    assert_eq!(p2.kind(), Kind::Prop);
    assert_eq!(p2.properties(), &expected_prop_properties("Bookcase"));
    assert_eq!(
        p2.datafile(),
        &expected_prop_datafile("Bookcase", "MG_Bookcase.obj", "Victorian"),
    );

    let mut mission_properties = Properties::new();
    mission_properties
        .insert_new(
            "Name".to_string(),
            "My Game".to_string(),
            "VTYPE_STRING",
            Some("HIDDEN".to_string()),
        )
        .unwrap();
    mission_properties
        .insert_new(
            "Save TTS Audio Files".to_string(),
            "true".to_string(),
            "VTYPE_BOOL",
            Some("HIDDEN".to_string()),
        )
        .unwrap();
    mission_properties
        .insert_new("Expanded Size".to_string(), "244".to_string(), "VTYPE_INT", None)
        .unwrap();
    mission_properties
        .insert_new(
            "Blanking Plates".to_string(),
            "eNpjY2BgEC7LTC7JL8pMzItPyknMy9bLT8piYDhwkIGhwYSBYYUjkN6vt9d6MxMOlR9AKrcQo3IC"
                .to_string(),
            "VTYPE_STRING",
            None,
        )
        .unwrap();
    mission_properties
        .insert_new("Meta".to_string(), "bb68tcb0fu097d1v".to_string(), "VTYPE_STRING", None)
        .unwrap();
    assert_eq!(missionobject.properties(), &mission_properties);

    let mut leftovers = Filemap::new();
    leftovers.add("Default.prop".to_string(), default_prop_template()).unwrap();
    leftovers.add("Barrier_Bars.obj".to_string(), b"mesh one".to_vec()).unwrap();
    leftovers.add("MG_Bookcase.obj".to_string(), b"mesh two".to_vec()).unwrap();
    assert_eq!(missionobject.files(), &leftovers);

    // the template's declared type coerces the datafile's plain string
    assert_eq!(
        p1.datafile().get_value("Size").unwrap(),
        &Value::Float("1.0".to_string()),
    );
    // both objects expose the shared default where their datafile is silent
    assert_eq!(
        p1.datafile().get_value("Description").unwrap(),
        &Value::String("defaulted".to_string()),
    );
    assert_eq!(
        p2.datafile().get_value("Description").unwrap(),
        &Value::String("defaulted".to_string()),
    );
}

// a record resolved against exactly its declared prerequisites collapses
// back to the same record, and re-emits its datafile under its name
#[test]
fn construct_collapse_roundtrip() {
    let mut props = Properties::new();
    props.insert_new("Active".to_string(), "true".to_string(), "VTYPE_BOOL", None).unwrap();
    props
        .insert_new(
            "Name".to_string(),
            "Barrier Bars".to_string(),
            "VTYPE_STRING",
            Some("READONLY | HIDDEN".to_string()),
        )
        .unwrap();
    let raw = Raw {
        kind: Kind::Prop,
        properties: props,
        datafile_name: Some("barrier_bars.prop".to_string()),
        orientation: Some("1.0, 0.0, 0.0, 0.0".to_string()),
        bbox_min: None,
        bbox_max: None,
        start_position: None,
        start_orientation: None,
        data: None,
        expanded_size: None,
    };

    let mut filemap = Filemap::new();
    filemap
        .add(
            "barrier_bars.prop".to_string(),
            b"Name = Barrier Bars\nSize = 1.0\n".to_vec(),
        )
        .unwrap();
    filemap.add("Default.prop".to_string(), default_prop_template()).unwrap();

    let object = load_intermediary(raw.clone(), &mut filemap).unwrap();
    // the exclusive datafile is claimed, the shared template stays
    assert!(!filemap.contains("barrier_bars.prop"));
    assert!(filemap.contains("Default.prop"));

    let collapsed = object.collapse().unwrap();
    assert_eq!(collapsed.raw, raw);
    assert!(collapsed.files.contains("barrier_bars.prop"));
    assert_eq!(collapsed.files.len(), 1);
}

// the missing-file error names the absent prerequisite
#[test]
fn missing_prerequisite() {
    let raw = Raw {
        kind: Kind::Prop,
        properties: Properties::new(),
        datafile_name: Some("absent.prop".to_string()),
        orientation: Some("1.0".to_string()),
        bbox_min: None,
        bbox_max: None,
        start_position: None,
        start_orientation: None,
        data: None,
        expanded_size: None,
    };
    let mut filemap = Filemap::new();
    let err = load_intermediary(raw, &mut filemap).unwrap_err();
    assert!(matches!(
        err,
        playmission::error::PlaymissionError::MissingFile(n) if n == "absent.prop"
    ));
}

#[test]
fn archive_without_descriptor() {
    let mut z = zip::ZipWriter::new(std::io::Cursor::new(Vec::new()));
    let opts = zip::write::SimpleFileOptions::default();
    z.start_file("readme.txt", opts).unwrap();
    z.write_all(b"nothing here").unwrap();
    let bytes = z.finish().unwrap().into_inner();
    let err = to_objects(&bytes).unwrap_err();
    assert!(matches!(err, playmission::error::PlaymissionError::MissingFile(_)));
}
