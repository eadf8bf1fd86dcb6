//! The typed property model: datafile parsing, the default merge and its
//! failure modes, and the edit layer's mutation primitive.
use playmission::error::PlaymissionError;
use playmission::properties::{Properties, Property};
use playmission::value::Value;

fn template_property(name: &str, vtype: &str, value: &str, flags: &str) -> String {
    format!(
        "<OBJECT: PROPERTY ><ATTR: NAME >{}</ATTR><ATTR: VTYPE >{}</ATTR><ATTR: VALUE >{}</ATTR><ATTR: FLAGS >{}</ATTR></OBJECT>",
        name, vtype, value, flags
    )
}

fn default_template() -> Vec<u8> {
    let mut s = String::from("<OBJECT: PROPERTIES >");
    s.push_str(&template_property("Active", "VTYPE_BOOL", "true", "READONLY,HIDDEN"));
    s.push_str(&template_property("Name", "VTYPE_STRING", "", "READONLY,HIDDEN"));
    s.push_str(&template_property("Description", "VTYPE_STRING", "", "READONLY,HIDDEN"));
    s.push_str(&template_property("Float", "VTYPE_FLOAT", "0.5", "READONLY,HIDDEN"));
    s.push_str(&template_property("Size X", "VTYPE_INT", "2", "READONLY,HIDDEN"));
    s.push_str("</OBJECT>");
    s.into_bytes()
}

#[test]
fn des_with_default() {
    let mut expected = Properties::new();
    let rh = || Some("READONLY,HIDDEN".to_string());
    expected
        .add("Active".to_string(), Property::new(Value::Bool(true), rh()))
        .unwrap();
    expected
        .add(
            "Name".to_string(),
            Property::new(Value::String("Baronial_2Door".to_string()), rh()),
        )
        .unwrap();
    expected
        .add(
            "Description".to_string(),
            Property::new(Value::String("".to_string()), rh()),
        )
        .unwrap();
    expected
        .add(
            "Float".to_string(),
            Property::new(Value::Float("0.7".to_string()), rh()),
        )
        .unwrap();
    expected
        .add("Size X".to_string(), Property::new(Value::Int(6), rh()))
        .unwrap();

    let datafile = b"Name = Baronial_2Door\nFloat = 0.7\nSize X = 6\n".to_vec();
    let default = default_template();

    let found = Properties::from_datafile_default(datafile, default).unwrap();
    assert_eq!(expected, found);
}

// merging a result back onto the same template changes nothing
#[test]
fn default_for_idempotent() {
    let datafile = b"Name = Baronial_2Door\nFloat = 0.7\nSize X = 6\n".to_vec();
    let merged = Properties::from_datafile_default(datafile, default_template()).unwrap();
    let datafile2 = b"Name = Baronial_2Door\nFloat = 0.7\nSize X = 6\n".to_vec();
    let template = {
        // rebuild the parsed template by merging an empty datafile
        Properties::from_datafile_default(b"".to_vec(), default_template()).unwrap()
    };
    let again = template.default_for(merged.clone()).unwrap();
    assert_eq!(merged, again);
    let _ = datafile2;
}

// overlaying a non-numeric string onto a float-typed default fails with a
// type-cast error
#[test]
fn default_for_cast_failure() {
    let datafile = b"Float = definitely not a number\n".to_vec();
    let err = Properties::from_datafile_default(datafile, default_template()).unwrap_err();
    match err {
        PlaymissionError::WrongTypeCast(v, t) => {
            assert_eq!(v, "definitely not a number");
            assert_eq!(t, "VTYPE_FLOAT");
        },
        other => panic!("unexpected error {:?}", other),
    }
}

// a non-string value of another type meets a mismatched default
#[test]
fn default_for_type_mismatch() {
    let mut defaults = Properties::new();
    defaults
        .insert_new("Size".to_string(), "1".to_string(), "VTYPE_INT", None)
        .unwrap();
    let mut other = Properties::new();
    other
        .insert_new("Size".to_string(), "true".to_string(), "VTYPE_BOOL", None)
        .unwrap();
    let err = defaults.default_for(other).unwrap_err();
    match err {
        PlaymissionError::MergedWrongType(k, found, expected) => {
            assert_eq!(k, "Size");
            assert_eq!(found, "VTYPE_BOOL");
            assert_eq!(expected, "VTYPE_INT");
        },
        other => panic!("unexpected error {:?}", other),
    }
}

#[test]
fn malformed_datafile_line() {
    let err = Properties::from_datafile_default(b"NoSeparatorHere\n".to_vec(), default_template())
        .unwrap_err();
    assert!(matches!(err, PlaymissionError::MalformedDatafileLine(l) if l == "NoSeparatorHere"));
}

#[test]
fn datafile_not_text() {
    let err =
        Properties::from_datafile_default(vec![0xff, 0xfe, 0x00], default_template()).unwrap_err();
    assert!(matches!(err, PlaymissionError::Encoding));
}

#[test]
fn properties_add_duplicate_fails() {
    let mut p = Properties::new();
    p.add("K".to_string(), Property::new(Value::Int(1), None)).unwrap();
    let err = p.add("K".to_string(), Property::new(Value::Int(2), None)).unwrap_err();
    assert!(matches!(err, PlaymissionError::TakenKey(k) if k == "K"));
}

// the sole mutation primitive keeps the declared type and returns the
// prior value
#[test]
fn replace_or_add_keeps_type() {
    let mut p = Properties::new();
    p.insert_new("Size".to_string(), "4".to_string(), "VTYPE_INT", None).unwrap();
    let old = p.replace_or_add_property_value("Size", "9".to_string()).unwrap();
    assert_eq!(old, Some(Value::Int(4)));
    assert_eq!(p.get_value("Size").unwrap(), &Value::Int(9));
    // a non-coercible new value is refused and changes nothing
    let err = p.replace_or_add_property_value("Size", "ten".to_string()).unwrap_err();
    assert!(matches!(err, PlaymissionError::WrongTypeCast(v, t) if v == "ten" && t == "VTYPE_INT"));
    assert_eq!(p.get_value("Size").unwrap(), &Value::Int(9));
    // a fresh key is created as a plain string
    let none = p.replace_or_add_property_value("Note", "hello".to_string()).unwrap();
    assert_eq!(none, None);
    assert_eq!(p.get_value("Note").unwrap(), &Value::String("hello".to_string()));
}

#[test]
fn value_coercions() {
    assert_eq!(Value::new("true".to_string(), "VTYPE_BOOL").unwrap(), Value::Bool(true));
    assert_eq!(Value::new("TRUE".to_string(), "VTYPE_BOOL").unwrap(), Value::Bool(true));
    assert_eq!(Value::new("-42".to_string(), "VTYPE_INT").unwrap(), Value::Int(-42));
    assert!(Value::new("2147483648".to_string(), "VTYPE_INT").is_err());
    assert_eq!(
        Value::new("1.5e3".to_string(), "VTYPE_FLOAT").unwrap(),
        Value::Float("1.5e3".to_string())
    );
    assert!(Value::new("x1.0".to_string(), "VTYPE_FLOAT").is_err());
    assert_eq!(
        Value::new("anything".to_string(), "VTYPE_UNKNOWN").unwrap(),
        Value::String("anything".to_string())
    );
    assert_eq!(
        Value::new("-2147483648".to_string(), "VTYPE_INT").unwrap(),
        Value::Int(-2147483648)
    );
    assert!(Value::new("-2147483649".to_string(), "VTYPE_INT").is_err());
    assert_eq!(Value::Int(-2147483648).to_text(), "-2147483648");
    assert_eq!(Value::Int(-7).to_text(), "-7");
    assert_eq!(Value::Bool(false).to_text(), "false");
    assert_eq!(Value::Int(120).vtype(), "VTYPE_INT");
}
