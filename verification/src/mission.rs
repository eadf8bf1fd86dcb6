//! The mission container and the whole load and save pipeline: archive
//! bytes in, a live object set and mission container out, and back.
use vstd::prelude::*;
use vstd::string::StrSliceExecFns;
use crate::assoc::{spec_has_key, unique_keys};
use crate::descriptor::{IntermediaryMission, MissionV, Raw, RawV, raws_view, parse_mission,
    render_mission, spec_parse_mission, spec_render_mission};
use crate::error::PlaymissionError;
use crate::filemap::{Filemap, FileEntryV, spec_zip_entries, spec_zip_bytes, spec_first_suffix};
use crate::properties::{Properties, Property, PropertyV, EntryV, entries_values_wf};
use crate::structs::{Object, ObjectV, CollapsedObject, obj_core, obj_wf, spec_load_intermediary,
    spec_collapse, load_intermediary, take_string, take_int, add1, lemma_load_values_wf};
use crate::text::{chars_of, string_from_utf8, string_from_chars};
use crate::value::{Value, ValueV};
use crate::xmlcleaner::{clean_toks, dirty_toks, clean_tokens, dirty_tokens};
use crate::xmltok::{scan_d, scan_d_exec, render_d, render_d_exec};

verus! {

/// Model of the mission container.
pub struct MissionObjectV {
    pub properties: Seq<EntryV>,
    pub files: Seq<FileEntryV>,
}

/// The mission container: mission-scoped properties and the leftover
/// files no object claimed.
#[derive(Debug, Clone, PartialEq)]
pub struct MissionObject {
    properties: Properties,
    files: Filemap,
}

impl View for MissionObject {
    type V = MissionObjectV;

    closed spec fn view(&self) -> MissionObjectV {
        MissionObjectV { properties: self.properties@, files: self.files@ }
    }
}

/// The mission container's collection invariants.
pub open spec fn mission_wf(m: MissionObjectV) -> bool {
    unique_keys(m.properties) && unique_keys(m.files)
}

/// The mission properties with the three reserved scalar fields folded in
/// under their fixed keys; a key collision refuses the fold.
pub open spec fn spec_from_remnants(
    props: Seq<EntryV>,
    expanded_size: int,
    blanking_plates: Seq<char>,
    meta: Seq<char>,
) -> Option<Seq<EntryV>> {
    match add1(props, "Expanded Size"@, ValueV::Int(expanded_size)) {
        Some(es1) => match add1(es1, "Blanking Plates"@, ValueV::String(blanking_plates)) {
            Some(es2) => add1(es2, "Meta"@, ValueV::String(meta)),
            None => None,
        },
        None => None,
    }
}

/// The inverse extraction: the three reserved fields taken back out, or
/// nothing where one is missing or was retyped.
pub open spec fn spec_into_remnants(props: Seq<EntryV>) -> Option<(Seq<EntryV>, int, Seq<char>, Seq<char>)> {
    match crate::structs::spec_take1(props, "Meta"@) {
        Some((ValueV::String(meta), es1)) => match crate::structs::spec_take1(
            es1,
            "Blanking Plates"@,
        ) {
            Some((ValueV::String(bp), es2)) => match crate::structs::spec_take1(
                es2,
                "Expanded Size"@,
            ) {
                Some((ValueV::Int(es), es3)) => Some((es3, es, bp, meta)),
                _ => None,
            },
            _ => None,
        },
        _ => None,
    }
}

impl MissionObject {
    /// Creates a container from its parts.
    pub fn new(properties: Properties, files: Filemap) -> (r: MissionObject)
        ensures
            r@.properties == properties@ && r@.files == files@,
    {
        MissionObject { properties, files }
    }

    /// Borrows the mission-scoped properties.
    pub fn properties(&self) -> (r: &Properties)
        ensures
            r@ == self@.properties,
    {
        &self.properties
    }

    /// Borrows the leftover files.
    pub fn files(&self) -> (r: &Filemap)
        ensures
            r@ == self@.files,
    {
        &self.files
    }

    /// Structurally copies this container.
    pub fn duplicate(&self) -> (r: MissionObject)
        ensures
            r@ == self@,
    {
        MissionObject { properties: self.properties.duplicate(), files: self.files.duplicate() }
    }

    /// Builds the container from what the load left over: the unclaimed
    /// files, with the three reserved scalar fields folded into the
    /// properties. An accidental key collision is an error.
    pub fn from_remnants(
        properties: Properties,
        files: Filemap,
        expanded_size: i32,
        blanking_plates: String,
        meta: String,
    ) -> (r: Result<MissionObject, PlaymissionError>)
        ensures
            match r {
                Ok(m) => {
                    &&& spec_from_remnants(
                        properties@,
                        expanded_size as int,
                        blanking_plates@,
                        meta@,
                    ) == Some(m@.properties)
                    &&& m@.files == files@
                    &&& properties.wf() && files.wf() ==> mission_wf(m@)
                },
                Err(e) => {
                    &&& spec_from_remnants(
                        properties@,
                        expanded_size as int,
                        blanking_plates@,
                        meta@,
                    ) is None
                    &&& e matches PlaymissionError::TakenKey(_)
                },
            },
    {
        let mut properties = properties;
        properties.add(
            String::from_str("Expanded Size"),
            Property::new(Value::Int(expanded_size), None),
        )?;
        properties.add(
            String::from_str("Blanking Plates"),
            Property::new(Value::String(blanking_plates), None),
        )?;
        properties.add(String::from_str("Meta"), Property::new(Value::String(meta), None))?;
        Ok(MissionObject { properties, files })
    }

    /// Extracts the reserved fields back out for serialization, failing
    /// where one is missing or was retyped.
    pub fn into_remnants(self) -> (r: Result<
        (Properties, Filemap, i32, String, String),
        PlaymissionError,
    >)
        ensures
            match r {
                Ok(t) => spec_into_remnants(self@.properties) matches Some(s) && s == (
                t.0@, t.2 as int, t.3@, t.4@) && t.1@ == self@.files && (mission_wf(self@)
                    ==> t.0.wf() && t.1.wf()),
                Err(_) => spec_into_remnants(self@.properties) is None,
            },
    {
        let MissionObject { mut properties, files } = self;
        let meta = take_string(&mut properties, "Meta")?;
        let bp = take_string(&mut properties, "Blanking Plates")?;
        let es = take_int(&mut properties, "Expanded Size")?;
        Ok((properties, files, es, bp, meta))
    }
}

/// Folding the reserved fields in and extracting them back out are
/// inverse: whatever `from_remnants` accepts, `into_remnants` returns
/// unchanged.
pub proof fn lemma_remnants_roundtrip(
    props: Seq<EntryV>,
    expanded_size: int,
    blanking_plates: Seq<char>,
    meta: Seq<char>,
)
    requires
        spec_from_remnants(props, expanded_size, blanking_plates, meta) is Some,
    ensures
        spec_into_remnants(spec_from_remnants(props, expanded_size, blanking_plates, meta)->Some_0)
            == Some((props, expanded_size, blanking_plates, meta)),
{
    let p1 = PropertyV { value: ValueV::Int(expanded_size), flags: None };
    let p2 = PropertyV { value: ValueV::String(blanking_plates), flags: None };
    let p3 = PropertyV { value: ValueV::String(meta), flags: None };
    let es1 = props.push(("Expanded Size"@, p1));
    let es2 = es1.push(("Blanking Plates"@, p2));
    crate::structs::lemma_take1_push(es2, "Meta"@, p3);
    crate::structs::lemma_take1_push(es1, "Blanking Plates"@, p2);
    crate::structs::lemma_take1_push(props, "Expanded Size"@, p1);
}

// ---------------------------------------------------------------------
// Loading
// ---------------------------------------------------------------------
/// The parsed descriptor of a claimed descriptor file.
pub open spec fn spec_descriptor(bytes: Seq<u8>) -> Option<MissionV> {
    if !vstd::utf8::valid_utf8(bytes) {
        None
    } else {
        match scan_d(vstd::utf8::decode_utf8(bytes)) {
            Some(ds) => match clean_toks(ds, Seq::empty()) {
                Some(cs) => spec_parse_mission(cs),
                None => None,
            },
            None => None,
        }
    }
}

/// Every record driven through construction, in order, against the
/// archive as it shrinks.
pub open spec fn spec_load_all(raws: Seq<RawV>, fm: Seq<FileEntryV>) -> Option<
    (Seq<ObjectV>, Seq<FileEntryV>),
>
    decreases raws.len(),
{
    if raws.len() == 0 {
        Some((Seq::empty(), fm))
    } else {
        match spec_load_intermediary(raws[0], fm) {
            Some((o, fm2)) => match spec_load_all(raws.skip(1), fm2) {
                Some((os, fm3)) => Some((seq![o] + os, fm3)),
                None => None,
            },
            None => None,
        }
    }
}

/// The whole load: archive bytes to the live object set, identifiers
/// aside, and the mission container.
pub open spec fn spec_to_objects(bytes: Seq<u8>) -> Option<(Seq<ObjectV>, MissionObjectV)> {
    match spec_zip_entries(bytes) {
        Some(es) => if !unique_keys(es) {
            None
        } else {
            let i = spec_first_suffix(es, ".mission"@);
            if i < 0 {
                None
            } else {
                let fm0 = es.remove(i);
                match spec_descriptor(es[i].1) {
                    Some(mv) => match spec_load_all(mv.raws, fm0) {
                        Some((os, fm1)) => match spec_from_remnants(
                            mv.properties,
                            mv.expanded_size,
                            mv.blanking_plates,
                            mv.meta,
                        ) {
                            Some(props) => Some(
                                (os, MissionObjectV { properties: props, files: fm1 }),
                            ),
                            None => None,
                        },
                        None => None,
                    },
                    None => None,
                }
            }
        },
        None => None,
    }
}

/// Identifier-erased models of a loaded object list.
pub open spec fn objs_core_view(v: Seq<Object>) -> Seq<ObjectV> {
    Seq::new(v.len(), |i: int| obj_core(v[i]@))
}

/// Parses a playmission archive into its live objects and mission
/// container. Any failure aborts the whole load: no partially
/// constructed mission is exposed.
#[verifier::loop_isolation(false)]
#[verifier::rlimit(100)]
pub fn to_objects(bytes: &Vec<u8>) -> (r: Result<(Vec<Object>, MissionObject), PlaymissionError>)
    ensures
        match r {
            Ok(t) => {
                &&& spec_to_objects(bytes@) matches Some(s) && s == (
                objs_core_view(t.0@), t.1@)
                &&& mission_wf(t.1@)
                &&& forall|i: int| 0 <= i < t.0@.len() ==> obj_wf((#[trigger] t.0@[i])@)
            },
            Err(_) => spec_to_objects(bytes@) is None,
        },
{
    let mut fm = Filemap::load(bytes)?;
    let ghost es = spec_zip_entries(bytes@)->Some_0;
    let (_, mission_bytes) = match fm.take_with_suffix(".mission") {
        Some(e) => e,
        None => {
            return Err(PlaymissionError::MissingFile(String::from_str("{.mission file}")));
        },
    };
    // parse the descriptor out of the claimed file
    let text = match string_from_utf8(&mission_bytes) {
        Some(s) => s,
        None => {
            return Err(PlaymissionError::Encoding);
        },
    };
    let cs = chars_of(text.as_str());
    proof {
        vstd::utf8::encode_utf8_decode_utf8(text@);
        assert(cs@ == vstd::utf8::decode_utf8(mission_bytes@));
    }
    let ds = scan_d_exec(&cs)?;
    let ctoks = clean_tokens(&ds)?;
    let im = parse_mission(&ctoks)?;
    let IntermediaryMission { expanded_size, blanking_plates, meta, properties, raws } = im;
    let ghost rawsv = raws_view(raws@);
    // drive every record through construction
    let mut objects: Vec<Object> = Vec::new();
    let mut rest = raws;
    let ghost fm_mid = fm@;
    proof {
        assert(raws_view(rest@) =~= rawsv);
        assert forall|i: int| 0 <= i < rest@.len() implies unique_keys(
            (#[trigger] rest@[i]@).properties,
        ) by {
            assert(im@.raws[i] == rest@[i]@);
        }
        assert(objs_core_view(objects@) =~= Seq::<ObjectV>::empty());
        lemma_load_all_from(Seq::<ObjectV>::empty(), rawsv, fm_mid);
        if spec_load_all(rawsv, fm_mid) is Some {
            let os = spec_load_all(rawsv, fm_mid)->Some_0.0;
            assert(Seq::<ObjectV>::empty() + os =~= os);
        }
        assert(spec_load_all(rawsv, fm_mid) == spec_load_all_from(
            Seq::<ObjectV>::empty(),
            raws_view(rest@),
            fm@,
        ));
    }
    while rest.len() > 0
        invariant
            fm.wf(),
            forall|i: int| 0 <= i < rest@.len() ==> unique_keys((#[trigger] rest@[i]@).properties),
            forall|i: int| 0 <= i < objects@.len() ==> obj_wf((#[trigger] objects@[i])@),
            spec_load_all(rawsv, fm_mid) == spec_load_all_from(
                objs_core_view(objects@),
                raws_view(rest@),
                fm@,
            ),
        decreases rest.len(),
    {
        let ghost rawpre = raws_view(rest@);
        let ghost objpre = objs_core_view(objects@);
        let raw = rest.remove(0);
        proof {
            assert(raws_view(rest@) =~= rawpre.skip(1));
            assert(rawpre[0] == raw@);
        }
        let o = load_intermediary(raw, &mut fm)?;
        objects.push(o);
        proof {
            assert(objs_core_view(objects@) =~= objpre.push(
                obj_core(objects@[objects@.len() - 1]@),
            ));
        }
    }
    proof {
        assert(raws_view(rest@) =~= Seq::<RawV>::empty());
    }
    let mo = MissionObject::from_remnants(properties, fm, expanded_size, blanking_plates, meta)?;
    Ok((objects, mo))
}

// ---------------------------------------------------------------------
// Saving
// ---------------------------------------------------------------------
/// Every live object collapsed in order, its emitted files merged into
/// the growing archive; any name collision refuses the save.
pub open spec fn spec_collapse_all(objs: Seq<ObjectV>, files: Seq<FileEntryV>) -> Option<
    (Seq<RawV>, Seq<FileEntryV>),
>
    decreases objs.len(),
{
    if objs.len() == 0 {
        Some((Seq::empty(), files))
    } else {
        match spec_collapse(objs[0]) {
            Some((raw, emitted)) => if exists|j: int|
                0 <= j < emitted.len() && spec_has_key(files, (#[trigger] emitted[j]).0) {
                None
            } else {
                match spec_collapse_all(objs.skip(1), files + emitted) {
                    Some((raws, files2)) => Some((seq![raw] + raws, files2)),
                    None => None,
                }
            },
            None => None,
        }
    }
}

/// The collapse fold, shifted past the objects already collapsed.
pub open spec fn spec_collapse_all_from(
    done: Seq<RawV>,
    objs: Seq<ObjectV>,
    files: Seq<FileEntryV>,
) -> Option<(Seq<RawV>, Seq<FileEntryV>)>
    decreases objs.len(),
{
    if objs.len() == 0 {
        Some((done, files))
    } else {
        match spec_collapse(objs[0]) {
            Some((raw, emitted)) => if exists|j: int|
                0 <= j < emitted.len() && spec_has_key(files, (#[trigger] emitted[j]).0) {
                None
            } else {
                spec_collapse_all_from(done.push(raw), objs.skip(1), files + emitted)
            },
            None => None,
        }
    }
}

/// The two collapse folds agree.
pub proof fn lemma_collapse_all_from(done: Seq<RawV>, objs: Seq<ObjectV>, files: Seq<FileEntryV>)
    ensures
        spec_collapse_all_from(done, objs, files) == (match spec_collapse_all(objs, files) {
            Some((raws, files2)) => Some::<(Seq<RawV>, Seq<FileEntryV>)>((done + raws, files2)),
            None => None::<(Seq<RawV>, Seq<FileEntryV>)>,
        }),
    decreases objs.len(),
{
    if objs.len() == 0 {
        assert(done + Seq::<RawV>::empty() =~= done);
    } else {
        match spec_collapse(objs[0]) {
            Some((raw, emitted)) => {
                if !exists|j: int|
                    0 <= j < emitted.len() && spec_has_key(files, (#[trigger] emitted[j]).0) {
                    lemma_collapse_all_from(done.push(raw), objs.skip(1), files + emitted);
                    match spec_collapse_all(objs.skip(1), files + emitted) {
                        Some((raws, files2)) => {
                            assert(done.push(raw) + raws =~= done + (seq![raw] + raws));
                        },
                        None => {},
                    }
                }
            },
            None => {},
        }
    }
}

/// The descriptor text of a mission record, re-wrapped into the illegal
/// dialect and encoded.
pub open spec fn spec_mission_bytes(mv: MissionV) -> Option<Seq<u8>> {
    match dirty_toks(spec_render_mission(mv), Seq::empty()) {
        Some(ds) => Some(vstd::utf8::encode_utf8(render_d(ds))),
        None => None,
    }
}

/// The whole save: the reserved fields extracted, every object collapsed
/// and its files merged, the descriptor re-serialized and re-wrapped,
/// and a new archive written.
pub open spec fn spec_serialize(m: MissionObjectV, objs: Seq<ObjectV>) -> Option<Seq<u8>> {
    match spec_into_remnants(m.properties) {
        Some((props, es, bp, meta)) => match spec_collapse_all(objs, m.files) {
            Some((raws, files)) => match spec_mission_bytes(
                MissionV {
                    expanded_size: es,
                    blanking_plates: bp,
                    meta: meta,
                    properties: props,
                    raws: raws,
                },
            ) {
                Some(mbytes) => if spec_has_key(files, "Test.mission"@) {
                    None
                } else {
                    spec_zip_bytes(files.push(("Test.mission"@, mbytes)))
                },
                None => None,
            },
            None => None,
        },
        None => None,
    }
}

/// Full models of an object list.
pub open spec fn objs_view(v: Seq<Object>) -> Seq<ObjectV> {
    Seq::new(v.len(), |i: int| v[i]@)
}

impl MissionObject {
    /// Serializes the whole mission back into archive bytes: extracts the
    /// reserved fields, collapses every object, merges the emitted files,
    /// re-wraps the descriptor and writes a new container.
    #[verifier::loop_isolation(false)]
    pub fn serialize(self, objects: Vec<Object>) -> (r: Result<Vec<u8>, PlaymissionError>)
        ensures
            match r {
                Ok(b) => spec_serialize(self@, objs_view(objects@)) == Some(b@),
                Err(_) => spec_serialize(self@, objs_view(objects@)) is None,
            },
    {
        let ghost objs0 = objs_view(objects@);
        let (properties, mut files, expanded_size, blanking_plates, meta) =
            self.into_remnants()?;
        let ghost files0 = files@;
        let mut raws: Vec<Raw> = Vec::new();
        let mut rest = objects;
        proof {
            assert(objs_view(rest@) =~= objs0);
            assert(raws_view(raws@) =~= Seq::<RawV>::empty());
            lemma_collapse_all_from(Seq::<RawV>::empty(), objs0, files0);
            if spec_collapse_all(objs0, files0) is Some {
                let rs = spec_collapse_all(objs0, files0)->Some_0.0;
                assert(Seq::<RawV>::empty() + rs =~= rs);
            }
        }
        while rest.len() > 0
            invariant
                spec_collapse_all(objs0, files0) == spec_collapse_all_from(
                    raws_view(raws@),
                    objs_view(rest@),
                    files@,
                ),
            decreases rest.len(),
        {
            let ghost objpre = objs_view(rest@);
            let ghost rawpre = raws_view(raws@);
            let o = rest.remove(0);
            proof {
                assert(objs_view(rest@) =~= objpre.skip(1));
                assert(objpre[0] == o@);
            }
            let co = o.collapse()?;
            let CollapsedObject { raw, files: emitted } = co;
            match files.merge(emitted) {
                Ok(_) => {},
                Err(e) => {
                    return Err(e);
                },
            }
            raws.push(raw);
            proof {
                assert(raws_view(raws@) =~= rawpre.push(raws@[raws@.len() - 1]@));
            }
        }
        proof {
            assert(objs_view(rest@) =~= Seq::<ObjectV>::empty());
        }
        let im = IntermediaryMission { expanded_size, blanking_plates, meta, properties, raws };
        let toks = render_mission(&im);
        let dtoks = match dirty_tokens(&toks) {
            Ok(d) => d,
            Err(e) => {
                return Err(e);
            },
        };
        let out = render_d_exec(&dtoks);
        let s = string_from_chars(&out);
        let mbytes = s.as_str().as_bytes_vec();
        match files.add(String::from_str("Test.mission"), mbytes) {
            Ok(_) => {},
            Err(e) => {
                return Err(e);
            },
        }
        match files.save() {
            Ok(b) => Ok(b),
            Err(e) => Err(e),
        }
    }
}

/// Every object of a load from validly parsed records holds values the
/// engine can produce.
pub proof fn lemma_load_all_values_wf(raws: Seq<RawV>, fm: Seq<FileEntryV>)
    requires
        spec_load_all(raws, fm) is Some,
        forall|i: int|
            0 <= i < raws.len() ==> crate::descriptor::raw_values_wf(#[trigger] raws[i]),
    ensures
        forall|i: int|
            0 <= i < spec_load_all(raws, fm)->Some_0.0.len() ==> entries_values_wf(
                (#[trigger] spec_load_all(raws, fm)->Some_0.0[i]).properties,
            ) && entries_values_wf(spec_load_all(raws, fm)->Some_0.0[i].datafile),
    decreases raws.len(),
{
    if raws.len() > 0 {
        let t = spec_load_intermediary(raws[0], fm)->Some_0;
        lemma_load_values_wf(raws[0], fm);
        assert(forall|i: int|
            0 <= i < raws.len() - 1 ==> (#[trigger] raws.skip(1)[i]) == raws[i + 1]);
        lemma_load_all_values_wf(raws.skip(1), t.1);
        let os = spec_load_all(raws, fm)->Some_0.0;
        let rest = spec_load_all(raws.skip(1), t.1)->Some_0.0;
        assert forall|i: int| 0 <= i < os.len() implies entries_values_wf(
            (#[trigger] os[i]).properties,
        ) && entries_values_wf(os[i].datafile) by {
            if i > 0 {
                assert(os[i] == rest[i - 1]);
            } else {
                assert(os[0] == t.0);
            }
        }
    }
}

/// Every object a whole load yields holds values the engine can produce.
pub proof fn lemma_to_objects_values_wf(bytes: Seq<u8>)
    requires
        spec_to_objects(bytes) is Some,
    ensures
        forall|i: int|
            0 <= i < spec_to_objects(bytes)->Some_0.0.len() ==> entries_values_wf(
                (#[trigger] spec_to_objects(bytes)->Some_0.0[i]).properties,
            ) && entries_values_wf(spec_to_objects(bytes)->Some_0.0[i].datafile),
{
    let es = spec_zip_entries(bytes)->Some_0;
    let i = spec_first_suffix(es, ".mission"@);
    let fm0 = es.remove(i);
    let mv = spec_descriptor(es[i].1)->Some_0;
    let ctoks = clean_toks(scan_d(vstd::utf8::decode_utf8(es[i].1))->Some_0, Seq::empty())->Some_0;
    crate::descriptor::lemma_parse_mission_values_wf(ctoks);
    lemma_load_all_values_wf(mv.raws, fm0);
}

/// The load fold, shifted past the objects already constructed.
pub open spec fn spec_load_all_from(
    done: Seq<ObjectV>,
    raws: Seq<RawV>,
    fm: Seq<FileEntryV>,
) -> Option<(Seq<ObjectV>, Seq<FileEntryV>)>
    decreases raws.len(),
{
    if raws.len() == 0 {
        Some((done, fm))
    } else {
        match spec_load_intermediary(raws[0], fm) {
            Some((o, fm2)) => spec_load_all_from(done.push(o), raws.skip(1), fm2),
            None => None,
        }
    }
}

/// The two load folds agree.
pub proof fn lemma_load_all_from(done: Seq<ObjectV>, raws: Seq<RawV>, fm: Seq<FileEntryV>)
    ensures
        spec_load_all_from(done, raws, fm) == (match spec_load_all(raws, fm) {
            Some((os, fm2)) => Some::<(Seq<ObjectV>, Seq<FileEntryV>)>((done + os, fm2)),
            None => None::<(Seq<ObjectV>, Seq<FileEntryV>)>,
        }),
    decreases raws.len(),
{
    if raws.len() == 0 {
        assert(done + Seq::<ObjectV>::empty() =~= done);
    } else {
        match spec_load_intermediary(raws[0], fm) {
            Some((o, fm2)) => {
                lemma_load_all_from(done.push(o), raws.skip(1), fm2);
                match spec_load_all(raws.skip(1), fm2) {
                    Some((os, fm3)) => {
                        assert(done.push(o) + os =~= done + (seq![o] + os));
                    },
                    None => {},
                }
            },
            None => {},
        }
    }
}

} // verus!
