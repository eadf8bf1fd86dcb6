//! The staged construction pipeline: a serialized `Raw` record begins
//! construction, declares its prerequisite files, and resolves into a
//! live `Object`; a live object collapses back into a record plus the
//! files it emits.
use vstd::prelude::*;
use crate::assoc::{spec_index_of, spec_has_key, spec_lookup, unique_keys, lemma_index_of_first,
    lemma_index_of_in_range};
use crate::datafile::{spec_datafile, parse_datafile_text};
use crate::descriptor::{Kind, Raw, RawV, spec_kind_default_file, spec_parse_properties, skip_ws,
    parse_properties, skip_ws_exec, opt_view};
use crate::error::{PlaymissionError, StructError};
use crate::filemap::{Filemap, FileEntryV};
use crate::properties::{Properties, Property, PropertyV, EntryV, spec_default_for, entries_values_wf, lemma_default_for_values_wf};
use crate::text::{chars_of, clone_bytes, string_from_utf8};
use crate::value::{Value, ValueV};
use crate::xmlcleaner::clean_toks;
use crate::xmltok::scan_d;
use vstd::string::StrSliceExecFns;

verus! {

/// Relies on `uuid::Uuid::new_v4`: a freshly generated random identifier,
/// returned as its 128-bit value. Nothing is promised of the result.
#[verifier::external_body]
pub(crate) fn fresh_uuid() -> u128 {
    uuid::Uuid::new_v4().as_u128()
}

/// A file an object's construction stage needs, marked shared (read in
/// place, reusable) or exclusive (claimed and removed).
#[derive(Debug, Clone, PartialEq)]
pub struct Prerequisite {
    pub file_name: String,
    pub shared: bool,
}

impl Prerequisite {
    /// Creates a prerequisite.
    pub fn new(file_name: String, shared: bool) -> (r: Prerequisite)
        ensures
            r.file_name@ == file_name@ && r.shared == shared,
    {
        Prerequisite { file_name, shared }
    }
}

/// Model of a live object.
pub struct ObjectV {
    pub uuid: int,
    pub kind: Kind,
    pub properties: Seq<EntryV>,
    pub datafile: Seq<EntryV>,
    pub datafile_name: Option<Seq<char>>,
    pub files: Seq<FileEntryV>,
}

/// The same object with its identifier erased: construction draws a
/// fresh identifier, so the pipeline's contracts speak of everything
/// else.
pub open spec fn obj_core(o: ObjectV) -> ObjectV {
    ObjectV { uuid: 0, ..o }
}

/// A live, editable object: its identifier, kind tag, merged properties,
/// datafile overrides, optional datafile name and attached files.
#[derive(Debug, Clone, PartialEq)]
pub struct Object {
    uuid: u128,
    kind: Kind,
    properties: Properties,
    datafile: Properties,
    datafile_name: Option<String>,
    files: Filemap,
}

impl View for Object {
    type V = ObjectV;

    closed spec fn view(&self) -> ObjectV {
        ObjectV {
            uuid: self.uuid as int,
            kind: self.kind,
            properties: self.properties@,
            datafile: self.datafile@,
            datafile_name: opt_view(self.datafile_name),
            files: self.files@,
        }
    }
}

/// The collection invariants of a live object.
pub open spec fn obj_wf(o: ObjectV) -> bool {
    unique_keys(o.properties) && unique_keys(o.datafile) && unique_keys(o.files)
}

/// A partially resolved record awaiting its named prerequisite files.
#[derive(Debug, Clone, PartialEq)]
pub struct Intermediary {
    raw: Raw,
}

impl View for Intermediary {
    type V = RawV;

    closed spec fn view(&self) -> RawV {
        self.raw@
    }
}

/// The state after one construction step: a finished object, or an
/// intermediary that needs more files.
pub enum ConstructedObject {
    Done(Object),
    More(Intermediary),
}

impl ConstructedObject {
    /// Wraps a finished object.
    pub fn done(o: Object) -> (r: ConstructedObject)
        ensures
            r matches ConstructedObject::Done(x) && x == o,
    {
        ConstructedObject::Done(o)
    }

    /// Wraps an intermediary that needs more files.
    pub fn more(i: Intermediary) -> (r: ConstructedObject)
        ensures
            r matches ConstructedObject::More(x) && x == i,
    {
        ConstructedObject::More(i)
    }
}

/// A collapsed object: its serialized record and the files it emitted.
#[derive(Debug, Clone, PartialEq)]
pub struct CollapsedObject {
    pub raw: Raw,
    pub files: Filemap,
}

impl CollapsedObject {
    /// Pairs a record with its emitted files.
    pub fn new(raw: Raw, files: Filemap) -> (r: CollapsedObject)
        ensures
            r.raw == raw && r.files == files,
    {
        CollapsedObject { raw, files }
    }
}

// ---------------------------------------------------------------------
// Construction, mathematically
// ---------------------------------------------------------------------
/// Whether a kind must claim files before it can resolve.
pub open spec fn kind_needs_files(k: Kind) -> bool {
    spec_kind_default_file(k) is Some || k == Kind::Media
}

/// Adds one inline field to a property list under a fixed key; a taken
/// key refuses the fold.
pub open spec fn add1(es: Seq<EntryV>, k: Seq<char>, v: ValueV) -> Option<Seq<EntryV>> {
    if spec_has_key(es, k) {
        None
    } else {
        Some(es.push((k, PropertyV { value: v, flags: None })))
    }
}

/// Folds a record's fixed inline fields into its property list under
/// their fixed key names.
pub open spec fn spec_fold_inline(r: RawV) -> Option<Seq<EntryV>> {
    match r.kind {
        Kind::Media | Kind::Rule => Some(r.properties),
        Kind::Location => match add1(
            r.properties,
            "Bounding Box Min"@,
            ValueV::String(crate::descriptor::ov(r.bbox_min)),
        ) {
            Some(es) => add1(
                es,
                "Bounding Box Max"@,
                ValueV::String(crate::descriptor::ov(r.bbox_max)),
            ),
            None => None,
        },
        Kind::Player => match add1(
            r.properties,
            "Orientation"@,
            ValueV::String(crate::descriptor::ov(r.orientation)),
        ) {
            Some(es) => match add1(
                es,
                "Start Position"@,
                ValueV::String(crate::descriptor::ov(r.start_position)),
            ) {
                Some(es2) => add1(
                    es2,
                    "Start Orientation"@,
                    ValueV::String(crate::descriptor::ov(r.start_orientation)),
                ),
                None => None,
            },
            None => None,
        },
        Kind::UserData => match add1(
            r.properties,
            "Data"@,
            ValueV::String(crate::descriptor::ov(r.data)),
        ) {
            Some(es) => add1(
                es,
                "Expanded Size"@,
                ValueV::Int(
                    match r.expanded_size {
                        Some(v) => v,
                        None => 0,
                    },
                ),
            ),
            None => None,
        },
        _ => add1(
            r.properties,
            "Orientation"@,
            ValueV::String(crate::descriptor::ov(r.orientation)),
        ),
    }
}

/// The object a file-free record resolves to at `begin`.
pub open spec fn spec_begin_core(r: RawV) -> Option<ObjectV> {
    match spec_fold_inline(r) {
        Some(props) => Some(
            ObjectV {
                uuid: 0,
                kind: r.kind,
                properties: props,
                datafile: Seq::empty(),
                datafile_name: None,
                files: Seq::empty(),
            },
        ),
        None => None,
    }
}

/// The property schema a default-template file declares: the template is
/// an illegal-dialect document holding one property block.
pub open spec fn spec_template(bytes: Seq<u8>) -> Option<Seq<EntryV>> {
    if !vstd::utf8::valid_utf8(bytes) {
        None
    } else {
        match scan_d(vstd::utf8::decode_utf8(bytes)) {
            Some(ds) => match clean_toks(ds, Seq::empty()) {
                Some(cs) => match spec_parse_properties(cs, 0) {
                    Some((es, p)) => if skip_ws(cs, p) == cs.len() {
                        Some(es)
                    } else {
                        None
                    },
                    None => None,
                },
                None => None,
            },
            None => None,
        }
    }
}

/// The parsed datafile of an object, as string-typed properties.
pub open spec fn spec_datafile_props(bytes: Seq<u8>) -> Option<Seq<EntryV>> {
    if !vstd::utf8::valid_utf8(bytes) {
        None
    } else {
        match spec_datafile(vstd::utf8::decode_utf8(bytes)) {
            Ok(es) => Some(es),
            Err(_) => None,
        }
    }
}

/// The object a datafile-carrying record resolves to: the template
/// declares each field's type, the datafile supplies values, and the
/// record's inline fields fold into the main property list.
pub open spec fn spec_construct_datafile(r: RawV, df: Seq<u8>, tpl: Seq<u8>) -> Option<ObjectV> {
    match spec_from_datafile_default(df, tpl) {
        Some(merged) => match spec_fold_inline(r) {
            Some(props) => Some(
                ObjectV {
                    uuid: 0,
                    kind: r.kind,
                    properties: props,
                    datafile: merged,
                    datafile_name: r.datafile_name,
                    files: Seq::empty(),
                },
            ),
            None => None,
        },
        None => None,
    }
}

/// The object a media record resolves to: it keeps its claimed resource
/// file.
pub open spec fn spec_media_core(r: RawV, f: Seq<char>, b: Seq<u8>) -> ObjectV {
    ObjectV {
        uuid: 0,
        kind: r.kind,
        properties: r.properties,
        datafile: Seq::empty(),
        datafile_name: None,
        files: seq![(f, b)],
    }
}

/// One record resolved against the files it claimed.
pub open spec fn spec_construct(r: RawV, files: Seq<FileEntryV>) -> Option<ObjectV> {
    if r.kind == Kind::Media {
        match spec_lookup(r.properties, "Filename"@) {
            Some(p) => match p.value {
                ValueV::String(f) => match spec_lookup(files, f) {
                    Some(b) => Some(ObjectV { files: files, ..spec_media_core(r, f, b) }),
                    None => None,
                },
                _ => None,
            },
            None => None,
        }
    } else {
        match r.datafile_name {
            Some(dfn) => match spec_kind_default_file(r.kind) {
                Some(tpln) => match spec_lookup(files, dfn) {
                    Some(df) => match spec_lookup(files, tpln) {
                        Some(tpl) => spec_construct_datafile(r, df, tpl),
                        None => None,
                    },
                    None => None,
                },
                None => None,
            },
            None => None,
        }
    }
}

/// One record resolved against the whole archive: the datafile and any
/// resource file are claimed exclusively, the kind's shared template is
/// read in place. Yields the object and the archive that remains.
pub open spec fn spec_load_intermediary(r: RawV, fm: Seq<FileEntryV>) -> Option<
    (ObjectV, Seq<FileEntryV>),
> {
    if !kind_needs_files(r.kind) {
        match spec_begin_core(r) {
            Some(o) => Some((o, fm)),
            None => None,
        }
    } else if r.kind == Kind::Media {
        match spec_lookup(r.properties, "Filename"@) {
            Some(p) => match p.value {
                ValueV::String(f) => match spec_lookup(fm, f) {
                    Some(b) => Some(
                        (
                            ObjectV { files: seq![(f, b)], ..spec_media_core(r, f, b) },
                            fm.remove(spec_index_of(fm, f)),
                        ),
                    ),
                    None => None,
                },
                _ => None,
            },
            None => None,
        }
    } else {
        match r.datafile_name {
            Some(dfn) => match spec_kind_default_file(r.kind) {
                Some(tpln) => match spec_lookup(fm, dfn) {
                    Some(df) => {
                        let fm2 = fm.remove(spec_index_of(fm, dfn));
                        match spec_lookup(fm2, tpln) {
                            Some(tpl) => match spec_construct_datafile(r, df, tpl) {
                                Some(o) => Some((o, fm2)),
                                None => None,
                            },
                            None => None,
                        }
                    },
                    None => None,
                },
                None => None,
            },
            None => None,
        }
    }
}

// ---------------------------------------------------------------------
// Construction, executably
// ---------------------------------------------------------------------
impl Raw {
    /// Starts construction: kinds with no file prerequisites resolve
    /// directly, others yield an intermediary to drive further.
    pub fn begin(self) -> (r: Result<ConstructedObject, PlaymissionError>)
        ensures
            match r {
                Ok(co) => match co {
                    ConstructedObject::Done(o) => !kind_needs_files(self@.kind) && spec_begin_core(
                        self@,
                    ) == Some(obj_core(o@)) && (unique_keys(self@.properties) ==> obj_wf(o@)),
                    ConstructedObject::More(im) => kind_needs_files(self@.kind) && im@ == self@,
                },
                Err(e) => {
                    &&& !kind_needs_files(self@.kind)
                    &&& spec_begin_core(self@) is None
                    &&& e matches PlaymissionError::TakenKey(_)
                },
            },
    {
        let needs = match self.kind {
            Kind::Media => true,
            _ => self.kind.default_file().is_some(),
        };
        if needs {
            Ok(ConstructedObject::More(Intermediary { raw: self }))
        } else {
            let ghost rv = self@;
            let Raw { kind, mut properties, orientation, start_position, start_orientation, data, expanded_size, .. } = self;
            match kind {
                Kind::Player => {
                    let o = or_empty(orientation);
                    let sp = or_empty(start_position);
                    let so = or_empty(start_orientation);
                    properties.add(
                        String::from_str("Orientation"),
                        Property::new(Value::String(o), None),
                    )?;
                    properties.add(
                        String::from_str("Start Position"),
                        Property::new(Value::String(sp), None),
                    )?;
                    properties.add(
                        String::from_str("Start Orientation"),
                        Property::new(Value::String(so), None),
                    )?;
                },
                Kind::UserData => {
                    let d = or_empty(data);
                    let es: i32 = match expanded_size {
                        Some(v) => v,
                        None => 0,
                    };
                    properties.add(
                        String::from_str("Data"),
                        Property::new(Value::String(d), None),
                    )?;
                    properties.add(
                        String::from_str("Expanded Size"),
                        Property::new(Value::Int(es), None),
                    )?;
                },
                _ => {},
            }
            proof {
                assert(spec_fold_inline(rv) == Some(properties@));
            }
            Ok(ConstructedObject::Done(Object {
                uuid: fresh_uuid(),
                kind,
                properties,
                datafile: Properties::new(),
                datafile_name: None,
                files: Filemap::new(),
            }))
        }
    }
}

/// Unwraps an optional string, empty when absent.
fn or_empty(o: Option<String>) -> (r: String)
    ensures
        r@ == crate::descriptor::ov(opt_view(o)),
{
    match o {
        Some(s) => s,
        None => String::new(),
    }
}

impl Intermediary {
    /// The files this stage needs, in claim order: the per-object
    /// datafile (exclusive) and the kind's shared default template, or a
    /// media object's named resource (exclusive).
    pub fn files(&self) -> (r: Result<Vec<Prerequisite>, PlaymissionError>)
        ensures
            match r {
                Ok(ps) => {
                    ||| {
                        &&& self@.kind != Kind::Media
                        &&& self@.datafile_name is Some
                        &&& spec_kind_default_file(self@.kind) is Some
                        &&& ps@.len() == 2
                        &&& ps@[0].file_name@ == self@.datafile_name->Some_0
                        &&& !ps@[0].shared
                        &&& ps@[1].file_name@ == spec_kind_default_file(self@.kind)->Some_0
                        &&& ps@[1].shared
                    }
                    ||| {
                        &&& self@.kind == Kind::Media
                        &&& ps@.len() == 1
                        &&& !ps@[0].shared
                        &&& spec_lookup(self@.properties, "Filename"@) matches Some(p) && p.value
                            == ValueV::String(ps@[0].file_name@)
                    }
                },
                Err(e) => {
                    ||| self@.kind == Kind::Media && (match spec_lookup(
                        self@.properties,
                        "Filename"@,
                    ) {
                        Some(p) => !(p.value is String),
                        None => true,
                    })
                    ||| self@.kind != Kind::Media && self@.datafile_name is None
                    ||| self@.kind != Kind::Media && spec_kind_default_file(self@.kind) is None
                },
            },
    {
        if let Kind::Media = self.raw.kind {
            let v = match self.raw.properties.get_value("Filename") {
                Ok(v) => v,
                Err(e) => {
                    return Err(e);
                },
            };
            match v {
                Value::String(f) => {
                    let mut ps: Vec<Prerequisite> = Vec::new();
                    ps.push(Prerequisite::new(f.clone(), false));
                    Ok(ps)
                },
                _ => Err(
                    PlaymissionError::WrongTypeFound(
                        String::from_str("Filename"),
                        String::from_str("VTYPE_STRING"),
                    ),
                ),
            }
        } else {
            let dfn = match &self.raw.datafile_name {
                Some(d) => d.clone(),
                None => {
                    return Err(PlaymissionError::NoDatafileName);
                },
            };
            let tpln = match self.raw.kind.default_file() {
                Some(t) => t,
                None => {
                    return Err(PlaymissionError::NoDatafileName);
                },
            };
            let mut ps: Vec<Prerequisite> = Vec::new();
            ps.push(Prerequisite::new(dfn, false));
            ps.push(Prerequisite::new(tpln.to_owned(), true));
            Ok(ps)
        }
    }

    /// Resolves this stage against the files claimed for it: parses the
    /// datafile, merges it over the kind's default template, and folds
    /// the record's inline fields into the main property list.
    pub fn construct(self, files: Filemap) -> (r: Result<ConstructedObject, PlaymissionError>)
        ensures
            match r {
                Ok(co) => co matches ConstructedObject::Done(o) && spec_construct(self@, files@)
                    == Some(obj_core(o@)) && (unique_keys(self@.properties) && files.wf() ==> obj_wf(
                    o@,
                )),
                Err(_) => spec_construct(self@, files@) is None,
            },
    {
        let ghost rv = self@;
        let Intermediary { raw } = self;
        if let Kind::Media = raw.kind {
            let fv = match raw.properties.get_value("Filename") {
                Ok(v) => v,
                Err(e) => {
                    return Err(e);
                },
            };
            let f: String = match fv {
                Value::String(f) => f.clone(),
                _ => {
                    return Err(
                        PlaymissionError::WrongTypeFound(
                            String::from_str("Filename"),
                            String::from_str("VTYPE_STRING"),
                        ),
                    );
                },
            };
            if !files.contains(f.as_str()) {
                return Err(PlaymissionError::MissingFile(String::from_str("Filename")));
            }
            proof {
                lemma_index_of_in_range(files@, f@);
            }
            Ok(ConstructedObject::Done(Object {
                uuid: fresh_uuid(),
                kind: raw.kind,
                properties: raw.properties,
                datafile: Properties::new(),
                datafile_name: None,
                files,
            }))
        } else {
            let dfn: String = match &raw.datafile_name {
                Some(d) => d.clone(),
                None => {
                    return Err(PlaymissionError::NoDatafileName);
                },
            };
            let tpln: &'static str = match raw.kind.default_file() {
                Some(t) => t,
                None => {
                    return Err(PlaymissionError::NoDatafileName);
                },
            };
            let df = match files.get(dfn.as_str()) {
                Some(b) => clone_bytes(b),
                None => {
                    return Err(PlaymissionError::MissingFile(dfn));
                },
            };
            let tpl = match files.get(tpln) {
                Some(b) => clone_bytes(b),
                None => {
                    return Err(PlaymissionError::MissingFile(tpln.to_owned()));
                },
            };
            construct_datafile(raw, dfn, df, tpl)
        }
    }
}

/// The datafile merged over the kind's default template.
pub open spec fn spec_from_datafile_default(df: Seq<u8>, tpl: Seq<u8>) -> Option<Seq<EntryV>> {
    match spec_datafile_props(df) {
        Some(df_es) => match spec_template(tpl) {
            Some(tpl_es) => match spec_default_for(tpl_es, df_es) {
                Ok(merged) => Some(merged),
                Err(_) => None,
            },
            None => None,
        },
        None => None,
    }
}

impl Properties {
    /// Parses a datafile and a default template and merges them: the
    /// template declares each field's type and fallback flags, the
    /// datafile supplies string values to coerce.
    pub fn from_datafile_default(datafile: Vec<u8>, default: Vec<u8>) -> (r: Result<
        Properties,
        PlaymissionError,
    >)
        ensures
            match r {
                Ok(p) => spec_from_datafile_default(datafile@, default@) == Some(p@) && p.wf(),
                Err(_) => spec_from_datafile_default(datafile@, default@) is None,
            },
    {
        let df_text = match string_from_utf8(&datafile) {
            Some(s) => s,
            None => {
                return Err(PlaymissionError::Encoding);
            },
        };
        let df_chars = chars_of(df_text.as_str());
        proof {
            vstd::utf8::encode_utf8_decode_utf8(df_text@);
            assert(df_chars@ == vstd::utf8::decode_utf8(datafile@));
        }
        let df_props = match parse_datafile_text(&df_chars) {
            Ok(p) => p,
            Err(e) => {
                return Err(e);
            },
        };
        let tpl_props = match parse_template(&default) {
            Ok(p) => p,
            Err(e) => {
                return Err(e);
            },
        };
        tpl_props.default_for(df_props)
    }
}

/// Resolves a datafile-carrying record against its two claimed files.
fn construct_datafile(raw: Raw, dfn: String, df: Vec<u8>, tpl: Vec<u8>) -> (r: Result<
    ConstructedObject,
    PlaymissionError,
>)
    requires
        raw@.kind != Kind::Media,
        spec_kind_default_file(raw@.kind) is Some,
        raw@.datafile_name == Some(dfn@),
    ensures
        match r {
            Ok(co) => co matches ConstructedObject::Done(o) && spec_construct_datafile(
                raw@,
                df@,
                tpl@,
            ) == Some(obj_core(o@)) && (unique_keys(raw@.properties) ==> obj_wf(o@)),
            Err(_) => spec_construct_datafile(raw@, df@, tpl@) is None,
        },
{
    let ghost rv = raw@;
    let merged = match Properties::from_datafile_default(df, tpl) {
        Ok(m) => m,
        Err(e) => {
            return Err(e);
        },
    };
    // fold the record's inline fields into the main property list
    let Raw { kind, mut properties, orientation, bbox_min, bbox_max, .. } = raw;
    match kind {
        Kind::Location => {
            let b1 = or_empty(bbox_min);
            let b2 = or_empty(bbox_max);
            properties.add(
                String::from_str("Bounding Box Min"),
                Property::new(Value::String(b1), None),
            )?;
            properties.add(
                String::from_str("Bounding Box Max"),
                Property::new(Value::String(b2), None),
            )?;
        },
        _ => {
            let o = or_empty(orientation);
            properties.add(
                String::from_str("Orientation"),
                Property::new(Value::String(o), None),
            )?;
        },
    }
    proof {
        assert(spec_fold_inline(rv) == Some(properties@));
    }
    Ok(ConstructedObject::Done(Object {
        uuid: fresh_uuid(),
        kind,
        properties,
        datafile: merged,
        datafile_name: Some(dfn),
        files: Filemap::new(),
    }))
}

/// Parses a default-template file: an illegal-dialect document holding
/// one property block.
pub fn parse_template(bytes: &Vec<u8>) -> (r: Result<Properties, PlaymissionError>)
    ensures
        match r {
            Ok(p) => spec_template(bytes@) == Some(p@) && p.wf(),
            Err(_) => spec_template(bytes@) is None,
        },
{
    let text = match string_from_utf8(bytes) {
        Some(s) => s,
        None => {
            return Err(PlaymissionError::Encoding);
        },
    };
    let cs = chars_of(text.as_str());
    proof {
        vstd::utf8::encode_utf8_decode_utf8(text@);
        assert(cs@ == vstd::utf8::decode_utf8(bytes@));
    }
    let ds = crate::xmltok::scan_d_exec(&cs)?;
    let ctoks = crate::xmlcleaner::clean_tokens(&ds)?;
    let (props, p) = parse_properties(&ctoks, 0)?;
    let pe = skip_ws_exec(&ctoks, p);
    if pe != ctoks.len() {
        return Err(PlaymissionError::MalformedStructure(String::from_str(
            "content after template properties",
        )));
    }
    Ok(props)
}

// ---------------------------------------------------------------------
// The live object
// ---------------------------------------------------------------------
impl Object {
    /// The object's identifier.
    pub fn uuid(&self) -> (r: u128)
        ensures
            r as int == self@.uuid,
    {
        self.uuid
    }

    /// The object's kind tag; it stays recoverable after construction.
    pub fn kind(&self) -> (r: Kind)
        ensures
            r == self@.kind,
    {
        self.kind
    }

    /// Borrows the merged property collection.
    pub fn properties(&self) -> (r: &Properties)
        ensures
            r@ == self@.properties,
    {
        &self.properties
    }

    /// Borrows the datafile overrides.
    pub fn datafile(&self) -> (r: &Properties)
        ensures
            r@ == self@.datafile,
    {
        &self.datafile
    }

    /// Borrows the attached files.
    pub fn files(&self) -> (r: &Filemap)
        ensures
            r@ == self@.files,
    {
        &self.files
    }

    /// The object's display name: its `Name` property's text, if any.
    pub fn name(&self) -> (r: Option<String>)
        ensures
            match r {
                Some(s) => spec_lookup(self@.properties, "Name"@) matches Some(p) && s@
                    == crate::value::spec_value_text(p.value),
                None => !spec_has_key(self@.properties, "Name"@),
            },
    {
        match self.properties.get_value("Name") {
            Ok(v) => Some(v.to_text()),
            Err(_) => None,
        }
    }

    /// Updates one property through the edit layer's mutation primitive,
    /// returning the prior value for undo.
    pub fn set_property(&mut self, k: &str, v: String) -> (r: Result<
        Option<Value>,
        PlaymissionError,
    >)
        ensures
            final(self)@.kind == old(self)@.kind && final(self)@.uuid == old(self)@.uuid && final(self)@.datafile == old(self)@.datafile && final(self)@.datafile_name == old(self)@.datafile_name && final(self)@.files == old(self)@.files,
            match r {
                Ok(old_value) => match spec_lookup(old(self)@.properties, k@) {
                    Some(p) => {
                        &&& crate::value::spec_value_new(
                            v@,
                            crate::value::spec_vtype_name(p.value),
                        ) matches Some(w)
                        &&& final(self)@.properties == old(self)@.properties.update(
                            spec_index_of(old(self)@.properties, k@),
                            (k@, PropertyV { value: w, flags: p.flags }),
                        )
                        &&& old_value matches Some(ov) && ov@ == p.value
                    },
                    None => {
                        &&& final(self)@.properties == old(self)@.properties.push(
                            (k@, PropertyV { value: ValueV::String(v@), flags: None }),
                        )
                        &&& old_value is None
                    },
                },
                Err(_) => {
                    &&& final(self)@ == old(self)@
                    &&& spec_lookup(old(self)@.properties, k@) matches Some(p)
                        && crate::value::spec_value_new(
                        v@,
                        crate::value::spec_vtype_name(p.value),
                    ) is None
                },
            },
            obj_wf(old(self)@) ==> obj_wf(final(self)@),
    {
        self.properties.replace_or_add_property_value(k, v)
    }

    /// Updates one datafile entry through the edit layer's mutation
    /// primitive, returning the prior value for undo.
    pub fn set_datafile(&mut self, k: &str, v: String) -> (r: Result<
        Option<Value>,
        PlaymissionError,
    >)
        ensures
            final(self)@.kind == old(self)@.kind && final(self)@.uuid == old(self)@.uuid && final(self)@.properties == old(self)@.properties && final(self)@.datafile_name == old(self)@.datafile_name && final(self)@.files == old(self)@.files,
            match r {
                Ok(old_value) => match spec_lookup(old(self)@.datafile, k@) {
                    Some(p) => {
                        &&& crate::value::spec_value_new(
                            v@,
                            crate::value::spec_vtype_name(p.value),
                        ) matches Some(w)
                        &&& final(self)@.datafile == old(self)@.datafile.update(
                            spec_index_of(old(self)@.datafile, k@),
                            (k@, PropertyV { value: w, flags: p.flags }),
                        )
                        &&& old_value matches Some(ov) && ov@ == p.value
                    },
                    None => {
                        &&& final(self)@.datafile == old(self)@.datafile.push(
                            (k@, PropertyV { value: ValueV::String(v@), flags: None }),
                        )
                        &&& old_value is None
                    },
                },
                Err(_) => {
                    &&& final(self)@ == old(self)@
                    &&& spec_lookup(old(self)@.datafile, k@) matches Some(p)
                        && crate::value::spec_value_new(
                        v@,
                        crate::value::spec_vtype_name(p.value),
                    ) is None
                },
            },
            obj_wf(old(self)@) ==> obj_wf(final(self)@),
    {
        self.datafile.replace_or_add_property_value(k, v)
    }

    /// Replaces or attaches one file, returning the prior bytes for undo.
    pub fn set_file(&mut self, k: String, v: Vec<u8>) -> (r: Option<Vec<u8>>)
        ensures
            final(self)@.kind == old(self)@.kind && final(self)@.uuid == old(self)@.uuid && final(self)@.properties == old(self)@.properties && final(self)@.datafile == old(self)@.datafile && final(self)@.datafile_name == old(self)@.datafile_name,
            match r {
                Some(old_buf) => {
                    &&& spec_lookup(old(self)@.files, k@) == Some(old_buf@)
                    &&& final(self)@.files == old(self)@.files.update(
                        spec_index_of(old(self)@.files, k@),
                        (k@, v@),
                    )
                },
                None => {
                    &&& !spec_has_key(old(self)@.files, k@)
                    &&& final(self)@.files == old(self)@.files.push((k@, v@))
                },
            },
            obj_wf(old(self)@) ==> obj_wf(final(self)@),
    {
        self.files.replace(k, v)
    }

    /// Structurally copies this object, identifier included.
    pub fn duplicate(&self) -> (r: Object)
        ensures
            r@ == self@,
    {
        Object {
            uuid: self.uuid,
            kind: self.kind,
            properties: self.properties.duplicate(),
            datafile: self.datafile.duplicate(),
            datafile_name: match self.datafile_name {
                Some(ref s) => Some(s.clone()),
                None => None,
            },
            files: self.files.duplicate(),
        }
    }

    /// Collapses this object back into its serialized record and the
    /// files it emits: the fixed inline fields are extracted back out of
    /// the property list and the datafile overrides are re-serialized.
    pub fn collapse(self) -> (r: Result<CollapsedObject, PlaymissionError>)
        ensures
            match r {
                Ok(co) => spec_collapse(self@) == Some((co.raw@, co.files@)),
                Err(_) => spec_collapse(self@) is None,
            },
    {
        let Object { uuid: _, kind, mut properties, datafile, datafile_name, files } = self;
        let base = Raw {
            kind,
            properties: Properties::new(),
            datafile_name: None,
            orientation: None,
            bbox_min: None,
            bbox_max: None,
            start_position: None,
            start_orientation: None,
            data: None,
            expanded_size: None,
        };
        match kind {
            Kind::Media | Kind::Rule => {
                Ok(CollapsedObject { raw: Raw { properties, ..base }, files })
            },
            Kind::Player => {
                let so = take_string(&mut properties, "Start Orientation")?;
                let sp = take_string(&mut properties, "Start Position")?;
                let o = take_string(&mut properties, "Orientation")?;
                Ok(CollapsedObject {
                    raw: Raw {
                        properties,
                        orientation: Some(o),
                        start_position: Some(sp),
                        start_orientation: Some(so),
                        ..base
                    },
                    files,
                })
            },
            Kind::UserData => {
                let es = take_int(&mut properties, "Expanded Size")?;
                let d = take_string(&mut properties, "Data")?;
                Ok(CollapsedObject {
                    raw: Raw { properties, data: Some(d), expanded_size: Some(es), ..base },
                    files,
                })
            },
            Kind::Location => {
                let dfn = match datafile_name {
                    Some(d) => d,
                    None => {
                        return Err(PlaymissionError::NoDatafileName);
                    },
                };
                let bytes = serialize_properties(&datafile);
                let mut files = files;
                files.add(dfn.clone(), bytes)?;
                let b2 = take_string(&mut properties, "Bounding Box Max")?;
                let b1 = take_string(&mut properties, "Bounding Box Min")?;
                Ok(CollapsedObject {
                    raw: Raw {
                        properties,
                        datafile_name: Some(dfn),
                        bbox_min: Some(b1),
                        bbox_max: Some(b2),
                        ..base
                    },
                    files,
                })
            },
            _ => {
                let dfn = match datafile_name {
                    Some(d) => d,
                    None => {
                        return Err(PlaymissionError::NoDatafileName);
                    },
                };
                let bytes = serialize_properties(&datafile);
                let mut files = files;
                files.add(dfn.clone(), bytes)?;
                let o = take_string(&mut properties, "Orientation")?;
                Ok(CollapsedObject {
                    raw: Raw {
                        properties,
                        datafile_name: Some(dfn),
                        orientation: Some(o),
                        ..base
                    },
                    files,
                })
            },
        }
    }
}

/// Extracts one fixed string field back out of a property list.
pub(crate) fn take_string(props: &mut Properties, k: &str) -> (r: Result<String, PlaymissionError>)
    ensures
        match r {
            Ok(s) => spec_take1(old(props)@, k@) matches Some(t) && t.0 == ValueV::String(s@)
                && final(props)@ == t.1,
            Err(e) => {
                &&& final(props)@ == old(props)@
                &&& match spec_take1(old(props)@, k@) {
                    Some(t) => !(t.0 is String),
                    None => true,
                }
            },
        },
        old(props).wf() ==> final(props).wf(),
{
    let ghost pre = props@;
    let idx = match props.find_index(k) {
        Some(i) => i,
        None => {
            return Err(PlaymissionError::MissingProperty(k.to_owned()));
        },
    };
    let is_string = match props.property_at(idx).value() {
        Value::String(_) => true,
        _ => false,
    };
    if !is_string {
        return Err(
            PlaymissionError::WrongTypeFound(k.to_owned(), String::from_str("VTYPE_STRING")),
        );
    }
    match props.take_value(k) {
        Ok(Value::String(s)) => Ok(s),
        Ok(_) => {
            proof {
                assert(false);
            }
            Err(PlaymissionError::WrongTypeFound(k.to_owned(), String::from_str("VTYPE_STRING")))
        },
        Err(_) => {
            proof {
                assert(false);
            }
            Err(PlaymissionError::MissingProperty(k.to_owned()))
        },
    }
}

/// Extracts one fixed integer field back out of a property list.
pub(crate) fn take_int(props: &mut Properties, k: &str) -> (r: Result<i32, PlaymissionError>)
    ensures
        match r {
            Ok(v) => spec_take1(old(props)@, k@) matches Some(t) && t.0 == ValueV::Int(v as int)
                && final(props)@ == t.1,
            Err(e) => {
                &&& final(props)@ == old(props)@
                &&& match spec_take1(old(props)@, k@) {
                    Some(t) => !(t.0 is Int),
                    None => true,
                }
            },
        },
        old(props).wf() ==> final(props).wf(),
{
    let idx = match props.find_index(k) {
        Some(i) => i,
        None => {
            return Err(PlaymissionError::MissingProperty(k.to_owned()));
        },
    };
    let is_int = match props.property_at(idx).value() {
        Value::Int(_) => true,
        _ => false,
    };
    if !is_int {
        return Err(PlaymissionError::WrongTypeFound(k.to_owned(), String::from_str("VTYPE_INT")));
    }
    match props.take_value(k) {
        Ok(Value::Int(v)) => Ok(v),
        Ok(_) => {
            proof {
                assert(false);
            }
            Err(PlaymissionError::WrongTypeFound(k.to_owned(), String::from_str("VTYPE_INT")))
        },
        Err(_) => {
            proof {
                assert(false);
            }
            Err(PlaymissionError::MissingProperty(k.to_owned()))
        },
    }
}

/// Removes the first entry of the given key, yielding its value and the
/// remaining entries.
pub open spec fn spec_take1(es: Seq<EntryV>, k: Seq<char>) -> Option<(ValueV, Seq<EntryV>)> {
    match spec_lookup(es, k) {
        Some(p) => Some((p.value, es.remove(spec_index_of(es, k)))),
        None => None,
    }
}

/// One flat datafile line: the key, the separator, the value's text.
pub open spec fn spec_flat_line(k: Seq<char>, p: PropertyV) -> Seq<char> {
    k + " = "@ + crate::value::spec_value_text(p.value) + "\n"@
}

/// The flat text of a datafile override collection, one line per entry.
pub open spec fn spec_flat_text(es: Seq<EntryV>) -> Seq<char>
    decreases es.len(),
{
    if es.len() == 0 {
        Seq::empty()
    } else {
        spec_flat_line(es[0].0, es[0].1) + spec_flat_text(es.skip(1))
    }
}

/// The serialized bytes of a datafile override collection: its entries
/// written back in the flat `Key = Value` form the format reads.
pub open spec fn spec_props_bytes(es: Seq<EntryV>) -> Seq<u8> {
    vstd::utf8::encode_utf8(spec_flat_text(es))
}

/// Appending an entry appends its line.
pub proof fn lemma_flat_text_push(es: Seq<EntryV>, e: EntryV)
    ensures
        spec_flat_text(es.push(e)) == spec_flat_text(es) + spec_flat_line(e.0, e.1),
    decreases es.len(),
{
    if es.len() == 0 {
        assert(es.push(e)[0] == e);
        assert(es.push(e).skip(1) =~= Seq::<EntryV>::empty());
        assert(spec_flat_text(Seq::<EntryV>::empty()) == Seq::<char>::empty());
        assert(spec_flat_text(es.push(e)) =~= spec_flat_line(e.0, e.1));
        assert(spec_flat_text(es) + spec_flat_line(e.0, e.1) =~= spec_flat_line(e.0, e.1));
    } else {
        assert(es.push(e).skip(1) =~= es.skip(1).push(e));
        assert(es.push(e)[0] == es[0]);
        lemma_flat_text_push(es.skip(1), e);
        assert(spec_flat_line(es[0].0, es[0].1) + (spec_flat_text(es.skip(1)) + spec_flat_line(
            e.0,
            e.1,
        )) =~= (spec_flat_line(es[0].0, es[0].1) + spec_flat_text(es.skip(1))) + spec_flat_line(
            e.0,
            e.1,
        ));
    }
}

/// Serializes a property collection back to the flat datafile form.
#[verifier::loop_isolation(false)]
pub fn serialize_properties(props: &Properties) -> (r: Vec<u8>)
    ensures
        r@ == spec_props_bytes(props@),
{
    let mut out: Vec<char> = Vec::new();
    let n = props.len();
    let mut i: usize = 0;
    proof {
        assert(props@.take(0) =~= Seq::<EntryV>::empty());
        assert(out@ =~= spec_flat_text(props@.take(0)));
    }
    while i < n
        invariant
            i <= n,
            n == props@.len(),
            out@ == spec_flat_text(props@.take(i as int)),
        decreases n - i,
    {
        let ghost pre = out@;
        let key = props.key_at(i);
        let mut kc = chars_of(key.as_str());
        out.append(&mut kc);
        out.push(' ');
        out.push('=');
        out.push(' ');
        let text = props.property_at(i).value().to_text();
        let mut vc = chars_of(text.as_str());
        out.append(&mut vc);
        out.push('\n');
        proof {
            assert(" = "@ =~= seq![' ', '=', ' ']) by {
                reveal_strlit(" = ");
            }
            assert("\n"@ =~= seq!['\n']) by {
                reveal_strlit("\n");
            }
            assert(out@ =~= pre + spec_flat_line(props@[i as int].0, props@[i as int].1));
            assert(props@.take(i + 1) =~= props@.take(i as int).push(props@[i as int]));
            lemma_flat_text_push(props@.take(i as int), props@[i as int]);
        }
        i = i + 1;
    }
    proof {
        assert(props@.take(n as int) =~= props@);
    }
    let s = crate::text::string_from_chars(&out);
    s.as_str().as_bytes_vec()
}

/// The record and emitted files a live object collapses to.
pub open spec fn spec_collapse(o: ObjectV) -> Option<(RawV, Seq<FileEntryV>)> {
    let base = RawV {
        kind: o.kind,
        properties: Seq::empty(),
        datafile_name: None,
        orientation: None,
        bbox_min: None,
        bbox_max: None,
        start_position: None,
        start_orientation: None,
        data: None,
        expanded_size: None,
    };
    match o.kind {
        Kind::Media | Kind::Rule => Some((RawV { properties: o.properties, ..base }, o.files)),
        Kind::Player => match spec_take1(o.properties, "Start Orientation"@) {
            Some((ValueV::String(so), es1)) => match spec_take1(es1, "Start Position"@) {
                Some((ValueV::String(sp), es2)) => match spec_take1(es2, "Orientation"@) {
                    Some((ValueV::String(ot), es3)) => Some(
                        (
                            RawV {
                                properties: es3,
                                orientation: Some(ot),
                                start_position: Some(sp),
                                start_orientation: Some(so),
                                ..base
                            },
                            o.files,
                        ),
                    ),
                    _ => None,
                },
                _ => None,
            },
            _ => None,
        },
        Kind::UserData => match spec_take1(o.properties, "Expanded Size"@) {
            Some((ValueV::Int(es), es1)) => match spec_take1(es1, "Data"@) {
                Some((ValueV::String(d), es2)) => Some(
                    (
                        RawV {
                            properties: es2,
                            data: Some(d),
                            expanded_size: Some(es),
                            ..base
                        },
                        o.files,
                    ),
                ),
                _ => None,
            },
            _ => None,
        },
        Kind::Location => match o.datafile_name {
            Some(dfn) => if spec_has_key(o.files, dfn) {
                None
            } else {
                match spec_take1(o.properties, "Bounding Box Max"@) {
                    Some((ValueV::String(b2), es1)) => match spec_take1(
                        es1,
                        "Bounding Box Min"@,
                    ) {
                        Some((ValueV::String(b1), es2)) => Some(
                            (
                                RawV {
                                    properties: es2,
                                    datafile_name: Some(dfn),
                                    bbox_min: Some(b1),
                                    bbox_max: Some(b2),
                                    ..base
                                },
                                o.files.push((dfn, spec_props_bytes(o.datafile))),
                            ),
                        ),
                        _ => None,
                    },
                    _ => None,
                }
            },
            None => None,
        },
        _ => match o.datafile_name {
            Some(dfn) => if spec_has_key(o.files, dfn) {
                None
            } else {
                match spec_take1(o.properties, "Orientation"@) {
                    Some((ValueV::String(ot), es1)) => Some(
                        (
                            RawV {
                                properties: es1,
                                datafile_name: Some(dfn),
                                orientation: Some(ot),
                                ..base
                            },
                            o.files.push((dfn, spec_props_bytes(o.datafile))),
                        ),
                    ),
                    _ => None,
                }
            },
            None => None,
        },
    }
}

// ---------------------------------------------------------------------
// Construction and collapse invert each other
// ---------------------------------------------------------------------
/// Removing a freshly pushed key gives back the value and the original
/// entries.
pub proof fn lemma_take1_push(es: Seq<EntryV>, k: Seq<char>, p: PropertyV)
    requires
        !spec_has_key(es, k),
    ensures
        spec_take1(es.push((k, p)), k) == Some((p.value, es)),
{
    assert forall|j: int| 0 <= j < es.len() implies (#[trigger] es[j].0) != k by {
        if es[j].0 == k {
            crate::assoc::lemma_index_of_has(es, k, j);
        }
    }
    lemma_index_of_first(es.push((k, p)), k, es.len() as int);
    assert(es.push((k, p)).remove(es.len() as int) =~= es);
}

/// Law: the construction and collapse round trip. Whatever record the
/// archive resolves into a live object, collapsing that object yields the
/// record back, identifier aside, and emits the object's own files plus,
/// for kinds with a datafile, the re-serialized datafile under its name.
#[verifier::rlimit(100)]
pub proof fn lemma_construct_collapse_roundtrip(r: RawV, fm: Seq<FileEntryV>)
    requires
        crate::descriptor::raw_wf(r),
        spec_load_intermediary(r, fm) is Some,
    ensures
        spec_collapse(spec_load_intermediary(r, fm)->Some_0.0) is Some,
        spec_collapse(spec_load_intermediary(r, fm)->Some_0.0)->Some_0.0 == r,
        spec_collapse(spec_load_intermediary(r, fm)->Some_0.0)->Some_0.1 == (
        if spec_kind_default_file(r.kind) is Some {
            spec_load_intermediary(r, fm)->Some_0.0.files.push(
                (
                    r.datafile_name->Some_0,
                    spec_props_bytes(spec_load_intermediary(r, fm)->Some_0.0.datafile),
                ),
            )
        } else {
            spec_load_intermediary(r, fm)->Some_0.0.files
        }),
{
    let o = spec_load_intermediary(r, fm)->Some_0.0;
    match r.kind {
        Kind::Media => {
            assert(o.properties == r.properties);
            assert(spec_collapse(o)->Some_0.0 =~= r);
        },
        Kind::Rule => {
            assert(o.properties == r.properties);
            assert(spec_collapse(o)->Some_0.0 =~= r);
        },
        Kind::Player => {
            let p1 = PropertyV {
                value: ValueV::String(crate::descriptor::ov(r.orientation)),
                flags: None,
            };
            let p2 = PropertyV {
                value: ValueV::String(crate::descriptor::ov(r.start_position)),
                flags: None,
            };
            let p3 = PropertyV {
                value: ValueV::String(crate::descriptor::ov(r.start_orientation)),
                flags: None,
            };
            let es1 = r.properties.push(("Orientation"@, p1));
            let es2 = es1.push(("Start Position"@, p2));
            assert(o.properties == es2.push(("Start Orientation"@, p3)));
            lemma_take1_push(es2, "Start Orientation"@, p3);
            lemma_take1_push(es1, "Start Position"@, p2);
            lemma_take1_push(r.properties, "Orientation"@, p1);
            assert(spec_collapse(o)->Some_0.0 =~= r);
        },
        Kind::UserData => {
            let p1 = PropertyV {
                value: ValueV::String(crate::descriptor::ov(r.data)),
                flags: None,
            };
            let p2 = PropertyV {
                value: ValueV::Int(r.expanded_size->Some_0),
                flags: None,
            };
            let es1 = r.properties.push(("Data"@, p1));
            assert(o.properties == es1.push(("Expanded Size"@, p2)));
            lemma_take1_push(es1, "Expanded Size"@, p2);
            lemma_take1_push(r.properties, "Data"@, p1);
            assert(spec_collapse(o)->Some_0.0 =~= r);
        },
        Kind::Location => {
            let p1 = PropertyV {
                value: ValueV::String(crate::descriptor::ov(r.bbox_min)),
                flags: None,
            };
            let p2 = PropertyV {
                value: ValueV::String(crate::descriptor::ov(r.bbox_max)),
                flags: None,
            };
            let es1 = r.properties.push(("Bounding Box Min"@, p1));
            assert(o.properties == es1.push(("Bounding Box Max"@, p2)));
            assert(o.files =~= Seq::<FileEntryV>::empty());
            lemma_take1_push(es1, "Bounding Box Max"@, p2);
            lemma_take1_push(r.properties, "Bounding Box Min"@, p1);
            assert(spec_collapse(o)->Some_0.0 =~= r);
        },
        _ => {
            let p1 = PropertyV {
                value: ValueV::String(crate::descriptor::ov(r.orientation)),
                flags: None,
            };
            assert(o.properties == r.properties.push(("Orientation"@, p1)));
            assert(o.files =~= Seq::<FileEntryV>::empty());
            lemma_take1_push(r.properties, "Orientation"@, p1);
            assert(spec_collapse(o)->Some_0.0 =~= r);
        },
    }
}

/// Folding inline fields keeps the values the engine can produce.
pub proof fn lemma_fold_inline_values_wf(r: RawV)
    requires
        crate::descriptor::raw_values_wf(r),
        spec_fold_inline(r) is Some,
    ensures
        entries_values_wf(spec_fold_inline(r)->Some_0),
{
    let es = spec_fold_inline(r)->Some_0;
    assert forall|i: int| 0 <= i < es.len() implies crate::value::value_wf(
        (#[trigger] es[i]).1.value,
    ) by {
        if i < r.properties.len() {
            assert(es[i] == r.properties[i]);
        }
    }
}

/// A loaded object's property and override values are ones the engine can
/// have produced.
pub proof fn lemma_load_values_wf(r: RawV, fm: Seq<FileEntryV>)
    requires
        crate::descriptor::raw_values_wf(r),
        spec_load_intermediary(r, fm) is Some,
    ensures
        entries_values_wf(spec_load_intermediary(r, fm)->Some_0.0.properties),
        entries_values_wf(spec_load_intermediary(r, fm)->Some_0.0.datafile),
    decreases 1int,
{
    let o = spec_load_intermediary(r, fm)->Some_0.0;
    if !kind_needs_files(r.kind) {
        lemma_fold_inline_values_wf(r);
        assert(entries_values_wf(Seq::<EntryV>::empty()));
    } else if r.kind == Kind::Media {
        assert(o.properties == r.properties);
        assert(entries_values_wf(Seq::<EntryV>::empty()));
    } else {
        let dfn = r.datafile_name->Some_0;
        let tpln = spec_kind_default_file(r.kind)->Some_0;
        let df = spec_lookup(fm, dfn)->Some_0;
        let fm2 = fm.remove(spec_index_of(fm, dfn));
        let tpl = spec_lookup(fm2, tpln)->Some_0;
        lemma_fold_inline_values_wf(r);
        // the merged overrides come from parsed, coerced values
        let text = vstd::utf8::decode_utf8(df);
        let df_es = spec_datafile_props(df)->Some_0;
        assert(entries_values_wf(df_es)) by {
            assert(entries_values_wf(Seq::<EntryV>::empty()));
            crate::datafile::lemma_df_lines_values_wf(
                Seq::empty(),
                crate::datafile::spec_lines(text),
            );
        }
        let tpl_es = spec_template(tpl)->Some_0;
        assert(entries_values_wf(tpl_es)) by {
            crate::descriptor::lemma_parse_properties_values_wf(
                crate::xmlcleaner::clean_toks(
                    scan_d(vstd::utf8::decode_utf8(tpl))->Some_0,
                    Seq::empty(),
                )->Some_0,
                0,
            );
        }
        lemma_default_for_values_wf(tpl_es, df_es);
    }
}

/// Drives one record through construction against the archive: resolves
/// its prerequisites, claiming exclusive files and reading shared ones in
/// place, until the record yields a live object.
pub fn load_intermediary(raw: Raw, filemap: &mut Filemap) -> (r: Result<Object, PlaymissionError>)
    requires
        old(filemap).wf(),
    ensures
        match r {
            Ok(o) => {
                &&& spec_load_intermediary(raw@, old(filemap)@) matches Some(t) && t == (
                obj_core(o@), final(filemap)@)
                &&& unique_keys(raw@.properties) ==> obj_wf(o@)
                &&& final(filemap).wf()
            },
            Err(_) => spec_load_intermediary(raw@, old(filemap)@) is None,
        },
{
    let ghost rv = raw@;
    let ghost fm0 = filemap@;
    let co = raw.begin()?;
    let im = match co {
        ConstructedObject::Done(o) => {
            return Ok(o);
        },
        ConstructedObject::More(im) => im,
    };
    let prereqs = im.files()?;
    let mut claimed = Filemap::new();
    if prereqs.len() == 1 {
        // a media object's exclusive resource file
        let name = prereqs[0].file_name.clone();
        let b = match filemap.take(name.as_str()) {
            Some(b) => b,
            None => {
                return Err(PlaymissionError::MissingFile(name));
            },
        };
        match claimed.add(name, b) {
            Ok(_) => {},
            Err(e) => {
                return Err(e);
            },
        }
        proof {
            lemma_index_of_first(claimed@, prereqs@[0].file_name@, 0);
        }
        let co2 = im.construct(claimed)?;
        match co2 {
            ConstructedObject::Done(o) => Ok(o),
            ConstructedObject::More(_) => {
                proof {
                    assert(false);
                }
                Err(PlaymissionError::Struct(StructError::WrongIntermediary))
            },
        }
    } else {
        // the exclusive datafile, then the shared default template
        let dfn = prereqs[0].file_name.clone();
        let tpln = prereqs[1].file_name.clone();
        let df = match filemap.take(dfn.as_str()) {
            Some(b) => b,
            None => {
                return Err(PlaymissionError::MissingFile(dfn));
            },
        };
        let tpl = match filemap.get(tpln.as_str()) {
            Some(b) => clone_bytes(b),
            None => {
                return Err(PlaymissionError::MissingFile(tpln));
            },
        };
        proof {
            // the template survives the exclusive claim, so its name is
            // another one
            lemma_index_of_in_range(filemap@, tpln@);
            lemma_index_of_in_range(fm0, dfn@);
        }
        let ghost dfv = df@;
        let ghost tplv = tpl@;
        match claimed.add(dfn, df) {
            Ok(_) => {},
            Err(e) => {
                return Err(e);
            },
        }
        proof {
            assert(dfn@ != tpln@) by {
                if dfn@ == tpln@ {
                    let i = spec_index_of(fm0, dfn@);
                    let j = spec_index_of(filemap@, tpln@);
                    assert(filemap@ == fm0.remove(i));
                    assert(filemap@[j].0 == dfn@);
                    if j < i {
                        assert(fm0[j].0 == dfn@ && fm0[i].0 == dfn@);
                    } else {
                        assert(fm0[j + 1].0 == dfn@ && fm0[i].0 == dfn@);
                    }
                }
            }
            assert(!spec_has_key(claimed@, tpln@)) by {
                if spec_has_key(claimed@, tpln@) {
                    lemma_index_of_in_range(claimed@, tpln@);
                }
            }
        }
        match claimed.add(tpln, tpl) {
            Ok(_) => {},
            Err(e) => {
                proof {
                    assert(false);
                }
                return Err(e);
            },
        }
        proof {
            assert(claimed@ =~= seq![(rv.datafile_name->Some_0, dfv), (
                spec_kind_default_file(rv.kind)->Some_0,
                tplv,
            )]);
            lemma_index_of_first(claimed@, rv.datafile_name->Some_0, 0);
            assert(claimed@[1].0 == spec_kind_default_file(rv.kind)->Some_0);
            lemma_index_of_first(claimed@, spec_kind_default_file(rv.kind)->Some_0, 1);
        }
        let co2 = im.construct(claimed)?;
        match co2 {
            ConstructedObject::Done(o) => Ok(o),
            ConstructedObject::More(_) => {
                proof {
                    assert(false);
                }
                Err(PlaymissionError::Struct(StructError::WrongIntermediary))
            },
        }
    }
}

} // verus!
