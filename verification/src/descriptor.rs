//! The typed descriptor representation: the closed set of object kinds,
//! the serialized `Raw` record of one descriptor entry, the
//! mission-level record, and the grammar between records and canonical
//! tag tokens.
use vstd::prelude::*;
use crate::assoc::spec_has_key;
use crate::error::PlaymissionError;
use crate::properties::{Properties, Property, PropertyV, EntryV, entries_values_wf};
use crate::value::{Value, spec_value_new, spec_parse_i32, spec_int_text, parse_i32_chars,
    format_i32};
use crate::text::{chars_of, string_from_chars};
use crate::xmltok::{CTok, CTokE, ctoks_view};

verus! {

/// The closed set of object kinds the format knows.
#[derive(Debug, Clone, Copy, PartialEq, Eq, Structural, Hash)]
pub enum Kind {
    ActiveProp,
    Character,
    Door,
    Location,
    Media,
    Pickup,
    Player,
    Prop,
    Rule,
    SpecialEffect,
    Trigger,
    UserData,
}

/// The element name of a kind.
pub open spec fn kind_name(k: Kind) -> Seq<char> {
    match k {
        Kind::ActiveProp => "ACTIVEPROP"@,
        Kind::Character => "CHARACTER"@,
        Kind::Door => "DOOR"@,
        Kind::Location => "LOCATION"@,
        Kind::Media => "MEDIA"@,
        Kind::Pickup => "PICKUP"@,
        Kind::Player => "PLAYER"@,
        Kind::Prop => "PROP"@,
        Kind::Rule => "RULE"@,
        Kind::SpecialEffect => "SPECIALEFFECT"@,
        Kind::Trigger => "TRIGGER"@,
        Kind::UserData => "USERDATA"@,
    }
}

/// The kind an element name denotes, if any.
pub open spec fn spec_kind_of_name(n: Seq<char>) -> Option<Kind> {
    if n == "ACTIVEPROP"@ {
        Some(Kind::ActiveProp)
    } else if n == "CHARACTER"@ {
        Some(Kind::Character)
    } else if n == "DOOR"@ {
        Some(Kind::Door)
    } else if n == "LOCATION"@ {
        Some(Kind::Location)
    } else if n == "MEDIA"@ {
        Some(Kind::Media)
    } else if n == "PICKUP"@ {
        Some(Kind::Pickup)
    } else if n == "PLAYER"@ {
        Some(Kind::Player)
    } else if n == "PROP"@ {
        Some(Kind::Prop)
    } else if n == "RULE"@ {
        Some(Kind::Rule)
    } else if n == "SPECIALEFFECT"@ {
        Some(Kind::SpecialEffect)
    } else if n == "TRIGGER"@ {
        Some(Kind::Trigger)
    } else if n == "USERDATA"@ {
        Some(Kind::UserData)
    } else {
        None
    }
}

/// The shared default-template file of a kind, if the kind has an
/// overridable schema.
pub open spec fn spec_kind_default_file(k: Kind) -> Option<Seq<char>> {
    match k {
        Kind::ActiveProp => Some("Default.aprop"@),
        Kind::Character => Some("Default.character"@),
        Kind::Door => Some("Default.door"@),
        Kind::Location => Some("Default.tile"@),
        Kind::Pickup => Some("Default.pickup"@),
        Kind::Prop => Some("Default.prop"@),
        Kind::SpecialEffect => Some("Default.effect"@),
        Kind::Trigger => Some("Default.trigger"@),
        Kind::Media => None,
        Kind::Player => None,
        Kind::Rule => None,
        Kind::UserData => None,
    }
}

impl Kind {
    /// The element name of this kind.
    pub fn name(&self) -> (r: &'static str)
        ensures
            r@ == kind_name(*self),
    {
        match self {
            Kind::ActiveProp => "ACTIVEPROP",
            Kind::Character => "CHARACTER",
            Kind::Door => "DOOR",
            Kind::Location => "LOCATION",
            Kind::Media => "MEDIA",
            Kind::Pickup => "PICKUP",
            Kind::Player => "PLAYER",
            Kind::Prop => "PROP",
            Kind::Rule => "RULE",
            Kind::SpecialEffect => "SPECIALEFFECT",
            Kind::Trigger => "TRIGGER",
            Kind::UserData => "USERDATA",
        }
    }

    /// The kind an element name denotes, if any.
    pub fn of_name(n: &String) -> (r: Option<Kind>)
        ensures
            r == spec_kind_of_name(n@),
    {
        if *n == String::from_str("ACTIVEPROP") {
            Some(Kind::ActiveProp)
        } else if *n == String::from_str("CHARACTER") {
            Some(Kind::Character)
        } else if *n == String::from_str("DOOR") {
            Some(Kind::Door)
        } else if *n == String::from_str("LOCATION") {
            Some(Kind::Location)
        } else if *n == String::from_str("MEDIA") {
            Some(Kind::Media)
        } else if *n == String::from_str("PICKUP") {
            Some(Kind::Pickup)
        } else if *n == String::from_str("PLAYER") {
            Some(Kind::Player)
        } else if *n == String::from_str("PROP") {
            Some(Kind::Prop)
        } else if *n == String::from_str("RULE") {
            Some(Kind::Rule)
        } else if *n == String::from_str("SPECIALEFFECT") {
            Some(Kind::SpecialEffect)
        } else if *n == String::from_str("TRIGGER") {
            Some(Kind::Trigger)
        } else if *n == String::from_str("USERDATA") {
            Some(Kind::UserData)
        } else {
            None
        }
    }

    /// The shared default-template file of this kind, if any.
    pub fn default_file(&self) -> (r: Option<&'static str>)
        ensures
            match r {
                Some(f) => spec_kind_default_file(*self) == Some(f@),
                None => spec_kind_default_file(*self) is None,
            },
    {
        match self {
            Kind::ActiveProp => Some("Default.aprop"),
            Kind::Character => Some("Default.character"),
            Kind::Door => Some("Default.door"),
            Kind::Location => Some("Default.tile"),
            Kind::Pickup => Some("Default.pickup"),
            Kind::Prop => Some("Default.prop"),
            Kind::SpecialEffect => Some("Default.effect"),
            Kind::Trigger => Some("Default.trigger"),
            Kind::Media => None,
            Kind::Player => None,
            Kind::Rule => None,
            Kind::UserData => None,
        }
    }
}

/// Model of a serialized descriptor entry.
pub struct RawV {
    pub kind: Kind,
    pub properties: Seq<EntryV>,
    pub datafile_name: Option<Seq<char>>,
    pub orientation: Option<Seq<char>>,
    pub bbox_min: Option<Seq<char>>,
    pub bbox_max: Option<Seq<char>>,
    pub start_position: Option<Seq<char>>,
    pub start_orientation: Option<Seq<char>>,
    pub data: Option<Seq<char>>,
    pub expanded_size: Option<int>,
}

/// The exact serialized shape of one descriptor entry: its kind, its
/// inline property list, and the kind's fixed inline fields.
#[derive(Debug, Clone, PartialEq)]
pub struct Raw {
    pub kind: Kind,
    pub properties: Properties,
    pub datafile_name: Option<String>,
    pub orientation: Option<String>,
    pub bbox_min: Option<String>,
    pub bbox_max: Option<String>,
    pub start_position: Option<String>,
    pub start_orientation: Option<String>,
    pub data: Option<String>,
    pub expanded_size: Option<i32>,
}

/// Model of an optional string.
pub open spec fn opt_view(o: Option<String>) -> Option<Seq<char>> {
    match o {
        Some(s) => Some(s@),
        None => None,
    }
}

impl View for Raw {
    type V = RawV;

    open spec fn view(&self) -> RawV {
        RawV {
            kind: self.kind,
            properties: self.properties@,
            datafile_name: opt_view(self.datafile_name),
            orientation: opt_view(self.orientation),
            bbox_min: opt_view(self.bbox_min),
            bbox_max: opt_view(self.bbox_max),
            start_position: opt_view(self.start_position),
            start_orientation: opt_view(self.start_orientation),
            data: opt_view(self.data),
            expanded_size: match self.expanded_size {
                Some(v) => Some(v as int),
                None => None,
            },
        }
    }
}

/// Which inline fields a kind's record carries.
pub open spec fn raw_wf(r: RawV) -> bool {
    &&& crate::assoc::unique_keys(r.properties)
    &&& r.datafile_name is Some == spec_kind_default_file(r.kind) is Some
    &&& r.orientation is Some == match r.kind {
        Kind::ActiveProp | Kind::Character | Kind::Door | Kind::Pickup | Kind::Prop
            | Kind::SpecialEffect | Kind::Trigger | Kind::Player => true,
        _ => false,
    }
    &&& r.bbox_min is Some == (r.kind == Kind::Location)
    &&& r.bbox_max is Some == (r.kind == Kind::Location)
    &&& r.start_position is Some == (r.kind == Kind::Player)
    &&& r.start_orientation is Some == (r.kind == Kind::Player)
    &&& r.data is Some == (r.kind == Kind::UserData)
    &&& r.expanded_size is Some == (r.kind == Kind::UserData)
}

/// Model of the mission-level record.
pub struct MissionV {
    pub expanded_size: int,
    pub blanking_plates: Seq<char>,
    pub meta: Seq<char>,
    pub properties: Seq<EntryV>,
    pub raws: Seq<RawV>,
}

/// The mission-level record: the three reserved scalar fields, the
/// mission's own properties, and every serialized object entry.
#[derive(Debug, Clone, PartialEq)]
pub struct IntermediaryMission {
    pub expanded_size: i32,
    pub blanking_plates: String,
    pub meta: String,
    pub properties: Properties,
    pub raws: Vec<Raw>,
}

/// Model of a raw record list.
pub open spec fn raws_view(v: Seq<Raw>) -> Seq<RawV> {
    Seq::new(v.len(), |i: int| v[i]@)
}

impl View for IntermediaryMission {
    type V = MissionV;

    open spec fn view(&self) -> MissionV {
        MissionV {
            expanded_size: self.expanded_size as int,
            blanking_plates: self.blanking_plates@,
            meta: self.meta@,
            properties: self.properties@,
            raws: raws_view(self.raws@),
        }
    }
}

// ---------------------------------------------------------------------
// The grammar: tokens to records
// ---------------------------------------------------------------------
/// A whitespace character.
pub open spec fn is_ws_char(c: char) -> bool {
    c == ' ' || c == '\t' || c == '\r' || c == '\n'
}

/// Only whitespace characters.
pub open spec fn all_ws(x: Seq<char>) -> bool {
    forall|i: int| 0 <= i < x.len() ==> is_ws_char(#[trigger] x[i])
}

/// A token holding only whitespace, as pretty-printing inserts between
/// elements.
pub open spec fn is_ws_text(t: CTok) -> bool {
    match t {
        CTok::Text(x) => all_ws(x),
        _ => false,
    }
}

/// First structural position at or after `pos`.
pub open spec fn skip_ws(ts: Seq<CTok>, pos: int) -> int
    decreases ts.len() - pos,
{
    if pos < 0 || pos >= ts.len() {
        pos
    } else if is_ws_text(ts[pos]) {
        skip_ws(ts, pos + 1)
    } else {
        pos
    }
}

pub proof fn lemma_skip_ws_bounds(ts: Seq<CTok>, pos: int)
    requires
        0 <= pos <= ts.len(),
    ensures
        pos <= skip_ws(ts, pos) <= ts.len(),
    decreases ts.len() - pos,
{
    if pos < ts.len() && is_ws_text(ts[pos]) {
        lemma_skip_ws_bounds(ts, pos + 1);
    }
}

/// One leaf element: an opening tag, optional text, and the matching
/// closing tag. Yields the name, the text (empty when absent) and the
/// next position.
pub open spec fn spec_parse_leaf(ts: Seq<CTok>, pos: int) -> Option<(Seq<char>, Seq<char>, int)> {
    let p0 = skip_ws(ts, pos);
    if 0 <= p0 && p0 < ts.len() {
        match ts[p0] {
            CTok::Open(n) => {
                if p0 + 1 < ts.len() {
                    match ts[p0 + 1] {
                        CTok::Close(m) => if m == n {
                            Some((n, Seq::<char>::empty(), p0 + 2))
                        } else {
                            None
                        },
                        CTok::Text(x) => {
                            if p0 + 2 < ts.len() {
                                match ts[p0 + 2] {
                                    CTok::Close(m) => if m == n {
                                        Some((n, x, p0 + 3))
                                    } else {
                                        None
                                    },
                                    _ => None,
                                }
                            } else {
                                None
                            }
                        },
                        _ => None,
                    }
                } else {
                    None
                }
            },
            _ => None,
        }
    } else {
        None
    }
}

/// A leaf element that must carry the given name.
pub open spec fn spec_parse_named_leaf(ts: Seq<CTok>, pos: int, name: Seq<char>) -> Option<
    (Seq<char>, int),
> {
    match spec_parse_leaf(ts, pos) {
        Some((n, x, p)) => if n == name {
            Some((x, p))
        } else {
            None
        },
        None => None,
    }
}

/// The matching closing tag of the given name, and the position after it.
pub open spec fn spec_parse_close(ts: Seq<CTok>, pos: int, name: Seq<char>) -> Option<int> {
    let p0 = skip_ws(ts, pos);
    if 0 <= p0 && p0 < ts.len() {
        match ts[p0] {
            CTok::Close(m) => if m == name {
                Some(p0 + 1)
            } else {
                None
            },
            _ => None,
        }
    } else {
        None
    }
}

/// Strips the trailing float marker the source dialect allows on float
/// literals.
pub open spec fn strip_float_suffix(val: Seq<char>, vt: Seq<char>) -> Seq<char> {
    if vt == "VTYPE_FLOAT"@ && val.len() > 0 && val.last() == 'f' {
        val.drop_last()
    } else {
        val
    }
}

/// One property element: `NAME`, `VTYPE` and `VALUE` leaves and an
/// optional `FLAGS` leaf, in order. The raw value string is coerced
/// against the type tag; a failed coercion parses to nothing.
pub open spec fn spec_parse_property(ts: Seq<CTok>, pos: int) -> Option<(EntryV, int)> {
    let p0 = skip_ws(ts, pos);
    if 0 <= p0 && p0 < ts.len() && ts[p0] == CTok::Open("PROPERTY"@) {
        match spec_parse_named_leaf(ts, p0 + 1, "NAME"@) {
            Some((name, p1)) => match spec_parse_named_leaf(ts, p1, "VTYPE"@) {
                Some((vt, p2)) => match spec_parse_named_leaf(ts, p2, "VALUE"@) {
                    Some((val, p3)) => {
                        let flagged = match spec_parse_named_leaf(ts, p3, "FLAGS"@) {
                            Some((fl, p4)) => (Some(fl), p4),
                            None => (None, p3),
                        };
                        match spec_parse_close(ts, flagged.1, "PROPERTY"@) {
                            Some(pc) => match spec_value_new(strip_float_suffix(val, vt), vt) {
                                Some(w) => Some(
                                    ((name, PropertyV { value: w, flags: flagged.0 }), pc),
                                ),
                                None => None,
                            },
                            None => None,
                        }
                    },
                    None => None,
                },
                None => None,
            },
            None => None,
        }
    } else {
        None
    }
}

/// The property elements of a `PROPERTIES` block, up to and including its
/// closing tag. A repeated name parses to nothing.
pub open spec fn spec_parse_prop_entries(ts: Seq<CTok>, pos: int, acc: Seq<EntryV>) -> Option<
    (Seq<EntryV>, int),
>
    decreases ts.len() - pos,
{
    match spec_parse_close(ts, pos, "PROPERTIES"@) {
        Some(pc) => Some((acc, pc)),
        None => match spec_parse_property(ts, pos) {
            Some((e, p)) => if spec_has_key(acc, e.0) {
                None
            } else if p <= pos || p > ts.len() {
                None
            } else {
                spec_parse_prop_entries(ts, p, acc.push(e))
            },
            None => None,
        },
    }
}

/// One whole `PROPERTIES` block.
pub open spec fn spec_parse_properties(ts: Seq<CTok>, pos: int) -> Option<(Seq<EntryV>, int)> {
    let p0 = skip_ws(ts, pos);
    if 0 <= p0 && p0 < ts.len() && ts[p0] == CTok::Open("PROPERTIES"@) {
        spec_parse_prop_entries(ts, p0 + 1, Seq::empty())
    } else {
        None
    }
}

/// An empty record of a kind.
pub open spec fn empty_raw(k: Kind, props: Seq<EntryV>) -> RawV {
    RawV {
        kind: k,
        properties: props,
        datafile_name: None,
        orientation: None,
        bbox_min: None,
        bbox_max: None,
        start_position: None,
        start_orientation: None,
        data: None,
        expanded_size: None,
    }
}

/// One serialized object entry: its kind element wrapping a `PROPERTIES`
/// block and the kind's fixed inline fields, in order.
pub open spec fn spec_parse_raw(ts: Seq<CTok>, pos: int) -> Option<(RawV, int)> {
    let p0 = skip_ws(ts, pos);
    if 0 <= p0 && p0 < ts.len() {
        match ts[p0] {
            CTok::Open(n) => match spec_kind_of_name(n) {
                Some(k) => match spec_parse_properties(ts, p0 + 1) {
                    Some((props, p1)) => spec_parse_raw_fields(ts, p1, k, props),
                    None => None,
                },
                None => None,
            },
            _ => None,
        }
    } else {
        None
    }
}

/// The kind-specific inline fields and the closing tag of one entry.
pub open spec fn spec_parse_raw_fields(ts: Seq<CTok>, pos: int, k: Kind, props: Seq<EntryV>) -> Option<
    (RawV, int),
> {
    match k {
        Kind::Media | Kind::Rule => match spec_parse_close(ts, pos, kind_name(k)) {
            Some(pc) => Some((empty_raw(k, props), pc)),
            None => None,
        },
        Kind::Player => match spec_parse_named_leaf(ts, pos, "ORIENTATION"@) {
            Some((o, p1)) => match spec_parse_named_leaf(ts, p1, "START_POSITION"@) {
                Some((sp, p2)) => match spec_parse_named_leaf(ts, p2, "START_ORIENTATION"@) {
                    Some((so, p3)) => match spec_parse_close(ts, p3, kind_name(k)) {
                        Some(pc) => Some(
                            (
                                RawV {
                                    orientation: Some(o),
                                    start_position: Some(sp),
                                    start_orientation: Some(so),
                                    ..empty_raw(k, props)
                                },
                                pc,
                            ),
                        ),
                        None => None,
                    },
                    None => None,
                },
                None => None,
            },
            None => None,
        },
        Kind::UserData => match spec_parse_named_leaf(ts, pos, "DATA"@) {
            Some((d, p1)) => match spec_parse_named_leaf(ts, p1, "ExpandedSize"@) {
                Some((es, p2)) => match spec_parse_i32(es) {
                    Some(v) => match spec_parse_close(ts, p2, kind_name(k)) {
                        Some(pc) => Some(
                            (
                                RawV {
                                    data: Some(d),
                                    expanded_size: Some(v),
                                    ..empty_raw(k, props)
                                },
                                pc,
                            ),
                        ),
                        None => None,
                    },
                    None => None,
                },
                None => None,
            },
            None => None,
        },
        Kind::Location => match spec_parse_named_leaf(ts, pos, "DATAFILE"@) {
            Some((df, p1)) => match spec_parse_named_leaf(ts, p1, "BBOX_MIN"@) {
                Some((b1, p2)) => match spec_parse_named_leaf(ts, p2, "BBOX_MAX"@) {
                    Some((b2, p3)) => match spec_parse_close(ts, p3, kind_name(k)) {
                        Some(pc) => Some(
                            (
                                RawV {
                                    datafile_name: Some(df),
                                    bbox_min: Some(b1),
                                    bbox_max: Some(b2),
                                    ..empty_raw(k, props)
                                },
                                pc,
                            ),
                        ),
                        None => None,
                    },
                    None => None,
                },
                None => None,
            },
            None => None,
        },
        _ => match spec_parse_named_leaf(ts, pos, "DATAFILE"@) {
            Some((df, p1)) => match spec_parse_named_leaf(ts, p1, "ORIENTATION"@) {
                Some((o, p2)) => match spec_parse_close(ts, p2, kind_name(k)) {
                    Some(pc) => Some(
                        (
                            RawV {
                                datafile_name: Some(df),
                                orientation: Some(o),
                                ..empty_raw(k, props)
                            },
                            pc,
                        ),
                    ),
                    None => None,
                },
                None => None,
            },
            None => None,
        },
    }
}

/// The object entries of the root element, up to and including its
/// closing tag.
pub open spec fn spec_parse_raws(ts: Seq<CTok>, pos: int, acc: Seq<RawV>) -> Option<
    (Seq<RawV>, int),
>
    decreases ts.len() - pos,
{
    match spec_parse_close(ts, pos, "GAME"@) {
        Some(pc) => Some((acc, pc)),
        None => match spec_parse_raw(ts, pos) {
            Some((r, p)) => if p <= pos || p > ts.len() {
                None
            } else {
                spec_parse_raws(ts, p, acc.push(r))
            },
            None => None,
        },
    }
}

/// The whole descriptor: a `GAME` element holding the three reserved
/// leaves, the mission's `PROPERTIES` block and the object entries, with
/// nothing but whitespace after it.
pub open spec fn spec_parse_mission(ts: Seq<CTok>) -> Option<MissionV> {
    let p0 = skip_ws(ts, 0);
    if 0 <= p0 && p0 < ts.len() && ts[p0] == CTok::Open("GAME"@) {
        match spec_parse_named_leaf(ts, p0 + 1, "ExpandedSize"@) {
            Some((es_text, p1)) => match spec_parse_i32(es_text) {
                Some(es) => match spec_parse_named_leaf(ts, p1, "BLANKINGPLATES"@) {
                    Some((bp, p2)) => match spec_parse_named_leaf(ts, p2, "Meta"@) {
                        Some((meta, p3)) => match spec_parse_properties(ts, p3) {
                            Some((props, p4)) => match spec_parse_raws(ts, p4, Seq::empty()) {
                                Some((raws, p5)) => if skip_ws(ts, p5) == ts.len() {
                                    Some(
                                        MissionV {
                                            expanded_size: es,
                                            blanking_plates: bp,
                                            meta: meta,
                                            properties: props,
                                            raws: raws,
                                        },
                                    )
                                } else {
                                    None
                                },
                                None => None,
                            },
                            None => None,
                        },
                        None => None,
                    },
                    None => None,
                },
                None => None,
            },
            None => None,
        }
    } else {
        None
    }
}

// ---------------------------------------------------------------------
// Executable parsing
// ---------------------------------------------------------------------
/// Whether a token holds only whitespace.
#[verifier::loop_isolation(false)]
pub fn is_ws_text_exec(t: &CTokE) -> (r: bool)
    ensures
        r == is_ws_text(t@),
{
    match t {
        CTokE::Text(x) => {
            let cs = chars_of(x.as_str());
            let n = cs.len();
            let mut i: usize = 0;
            while i < n
                invariant
                    i <= n,
                    n == cs@.len(),
                    cs@ == x@,
                    forall|k: int| 0 <= k < i ==> is_ws_char(#[trigger] x@[k]),
                decreases n - i,
            {
                let c = cs[i];
                if !(c == ' ' || c == '\t' || c == '\r' || c == '\n') {
                    proof {
                        assert(cs@[i as int] == x@[i as int]);
                        assert(!is_ws_char(x@[i as int]));
                        assert(!all_ws(x@));
                        assert(t@ == CTok::Text(x@));
                        assert(!is_ws_text(CTok::Text(x@)));
                    }
                    return false;
                }
                i = i + 1;
            }
            true
        },
        _ => false,
    }
}

/// First structural position at or after `pos`.
pub fn skip_ws_exec(ts: &Vec<CTokE>, pos: usize) -> (r: usize)
    requires
        pos <= ts@.len(),
    ensures
        r == skip_ws(ctoks_view(ts@), pos as int),
        pos <= r <= ts@.len(),
{
    let n = ts.len();
    let ghost tsv = ctoks_view(ts@);
    let mut i = pos;
    while i < n
        invariant
            pos <= i <= n,
            n == ts@.len(),
            tsv == ctoks_view(ts@),
            skip_ws(tsv, pos as int) == skip_ws(tsv, i as int),
        ensures
            pos <= i <= n,
            skip_ws(tsv, pos as int) == skip_ws(tsv, i as int),
            i == n || !is_ws_text(tsv[i as int]),
        decreases n - i,
    {
        if !is_ws_text_exec(&ts[i]) {
            proof {
                assert(tsv[i as int] == ts@[i as int]@);
            }
            break;
        }
        proof {
            assert(tsv[i as int] == ts@[i as int]@);
        }
        i = i + 1;
    }
    i
}

/// Parses one leaf element.
pub fn parse_leaf(ts: &Vec<CTokE>, pos: usize) -> (r: Option<(String, String, usize)>)
    requires
        pos <= ts@.len(),
    ensures
        match r {
            Some(t) => {
                &&& spec_parse_leaf(ctoks_view(ts@), pos as int) == Some(
                    (t.0@, t.1@, t.2 as int),
                )
                &&& pos < t.2 <= ts@.len()
            },
            None => spec_parse_leaf(ctoks_view(ts@), pos as int) is None,
        },
{
    let ghost tsv = ctoks_view(ts@);
    let n = ts.len();
    let p0 = skip_ws_exec(ts, pos);
    if p0 >= n {
        return None;
    }
    proof {
        assert(tsv[p0 as int] == ts@[p0 as int]@);
    }
    let name: String = match &ts[p0] {
        CTokE::Open(nm) => nm.clone(),
        _ => {
            return None;
        },
    };
    if p0 + 1 >= n {
        return None;
    }
    proof {
        assert(tsv[p0 + 1] == ts@[p0 + 1]@);
    }
    match &ts[p0 + 1] {
        CTokE::Close(m) => {
            if *m == name {
                Some((name, String::new(), p0 + 2))
            } else {
                None
            }
        },
        CTokE::Text(x) => {
            if p0 + 2 >= n {
                return None;
            }
            proof {
                assert(tsv[p0 + 2] == ts@[p0 + 2]@);
            }
            match &ts[p0 + 2] {
                CTokE::Close(m) => {
                    if *m == name {
                        Some((name, x.clone(), p0 + 3))
                    } else {
                        None
                    }
                },
                _ => None,
            }
        },
        _ => None,
    }
}

/// Parses one leaf element that must carry the given name.
pub fn parse_named_leaf(ts: &Vec<CTokE>, pos: usize, name: &str) -> (r: Option<(String, usize)>)
    requires
        pos <= ts@.len(),
    ensures
        match r {
            Some(t) => {
                &&& spec_parse_named_leaf(ctoks_view(ts@), pos as int, name@) == Some(
                    (t.0@, t.1 as int),
                )
                &&& pos < t.1 <= ts@.len()
            },
            None => spec_parse_named_leaf(ctoks_view(ts@), pos as int, name@) is None,
        },
{
    match parse_leaf(ts, pos) {
        Some((n, x, p)) => {
            let expected: String = name.to_owned();
            if n == expected {
                Some((x, p))
            } else {
                None
            }
        },
        None => None,
    }
}

/// Parses the closing tag of the given name.
pub fn parse_close(ts: &Vec<CTokE>, pos: usize, name: &str) -> (r: Option<usize>)
    requires
        pos <= ts@.len(),
    ensures
        match r {
            Some(p) => spec_parse_close(ctoks_view(ts@), pos as int, name@) == Some(p as int) && pos
                < p <= ts@.len(),
            None => spec_parse_close(ctoks_view(ts@), pos as int, name@) is None,
        },
{
    let ghost tsv = ctoks_view(ts@);
    let n = ts.len();
    let p0 = skip_ws_exec(ts, pos);
    if p0 >= n {
        return None;
    }
    proof {
        assert(tsv[p0 as int] == ts@[p0 as int]@);
    }
    match &ts[p0] {
        CTokE::Close(m) => {
            let expected: String = name.to_owned();
            if *m == expected {
                Some(p0 + 1)
            } else {
                None
            }
        },
        _ => None,
    }
}

/// Parses one property element, coercing its value against its type tag.
pub fn parse_property(ts: &Vec<CTokE>, pos: usize) -> (r: Result<
    ((String, Property), usize),
    PlaymissionError,
>)
    requires
        pos <= ts@.len(),
    ensures
        match r {
            Ok(t) => {
                &&& spec_parse_property(ctoks_view(ts@), pos as int) matches Some(s) && s == (
                ((t.0).0@, (t.0).1@), t.1 as int)
                &&& pos < t.1 <= ts@.len()
            },
            Err(_) => spec_parse_property(ctoks_view(ts@), pos as int) is None,
        },
{
    let ghost tsv = ctoks_view(ts@);
    let n = ts.len();
    let p0 = skip_ws_exec(ts, pos);
    if p0 >= n {
        return Err(PlaymissionError::MalformedStructure(String::from_str("property expected")));
    }
    proof {
        assert(tsv[p0 as int] == ts@[p0 as int]@);
    }
    let is_prop_open: bool = match &ts[p0] {
        CTokE::Open(m) => *m == String::from_str("PROPERTY"),
        _ => false,
    };
    if !is_prop_open {
        proof {
            assert(tsv[p0 as int] != CTok::Open("PROPERTY"@));
        }
        return Err(PlaymissionError::MalformedStructure(String::from_str("property expected")));
    }
    let (name, p1) = match parse_named_leaf(ts, p0 + 1, "NAME") {
        Some(t) => t,
        None => {
            return Err(PlaymissionError::MalformedStructure(String::from_str(
                "property name expected",
            )));
        },
    };
    let (vt, p2) = match parse_named_leaf(ts, p1, "VTYPE") {
        Some(t) => t,
        None => {
            return Err(PlaymissionError::MalformedStructure(String::from_str(
                "property type expected",
            )));
        },
    };
    let (val, p3) = match parse_named_leaf(ts, p2, "VALUE") {
        Some(t) => t,
        None => {
            return Err(PlaymissionError::MalformedStructure(String::from_str(
                "property value expected",
            )));
        },
    };
    let (flags, p4): (Option<String>, usize) = match parse_named_leaf(ts, p3, "FLAGS") {
        Some((fl, p)) => (Some(fl), p),
        None => (None, p3),
    };
    let pc = match parse_close(ts, p4, "PROPERTY") {
        Some(p) => p,
        None => {
            return Err(PlaymissionError::MalformedStructure(String::from_str(
                "unclosed property",
            )));
        },
    };
    // strip the dialect's trailing float marker before coercion
    let mut vchars = chars_of(val.as_str());
    let is_float = vt == String::from_str("VTYPE_FLOAT");
    let stripped: String = if is_float && vchars.len() > 0 && vchars[vchars.len() - 1] == 'f' {
        let ghost pre = vchars@;
        let _ = vchars.pop();
        proof {
            assert(vchars@ =~= pre.drop_last());
        }
        string_from_chars(&vchars)
    } else {
        val
    };
    proof {
        assert(stripped@ == strip_float_suffix(val@, vt@));
    }
    let value = match Value::new(stripped, vt.as_str()) {
        Ok(v) => v,
        Err(e) => {
            return Err(PlaymissionError::Serde(e));
        },
    };
    Ok(((name, Property::new(value, flags)), pc))
}

/// Parses one whole `PROPERTIES` block into a property collection.
#[verifier::loop_isolation(false)]
pub fn parse_properties(ts: &Vec<CTokE>, pos: usize) -> (r: Result<
    (Properties, usize),
    PlaymissionError,
>)
    requires
        pos <= ts@.len(),
    ensures
        match r {
            Ok(t) => {
                &&& spec_parse_properties(ctoks_view(ts@), pos as int) matches Some(s) && s == (
                t.0@, t.1 as int)
                &&& t.0.wf()
                &&& pos < t.1 <= ts@.len()
            },
            Err(_) => spec_parse_properties(ctoks_view(ts@), pos as int) is None,
        },
{
    let ghost tsv = ctoks_view(ts@);
    let n = ts.len();
    let p0 = skip_ws_exec(ts, pos);
    if p0 >= n {
        return Err(PlaymissionError::MalformedStructure(String::from_str(
            "property block expected",
        )));
    }
    proof {
        assert(tsv[p0 as int] == ts@[p0 as int]@);
    }
    let is_open: bool = match &ts[p0] {
        CTokE::Open(m) => *m == String::from_str("PROPERTIES"),
        _ => false,
    };
    if !is_open {
        proof {
            assert(tsv[p0 as int] != CTok::Open("PROPERTIES"@));
        }
        return Err(PlaymissionError::MalformedStructure(String::from_str(
            "property block expected",
        )));
    }
    proof {
        assert(tsv[p0 as int] == CTok::Open("PROPERTIES"@));
    }
    let mut props = Properties::new();
    let mut cur: usize = p0 + 1;
    while cur <= n
        invariant
            p0 + 1 <= cur,
            props.wf(),
            cur <= ts@.len(),
            spec_parse_prop_entries(tsv, p0 + 1, Seq::empty()) == spec_parse_prop_entries(
                tsv,
                cur as int,
                props@,
            ),
        decreases n - cur,
    {
        match parse_close(ts, cur, "PROPERTIES") {
            Some(pc) => {
                return Ok((props, pc));
            },
            None => {},
        }
        let ((k, p), next) = match parse_property(ts, cur) {
            Ok(t) => t,
            Err(e) => {
                return Err(e);
            },
        };
        match props.add(k, p) {
            Ok(_) => {},
            Err(e) => {
                return Err(e);
            },
        }
        cur = next;
    }
    proof {
        assert(spec_parse_close(tsv, cur as int, "PROPERTIES"@) is None) by {
            lemma_skip_ws_bounds(tsv, cur as int);
        }
        assert(spec_parse_property(tsv, cur as int) is None) by {
            lemma_skip_ws_bounds(tsv, cur as int);
        }
    }
    Err(PlaymissionError::MalformedStructure(String::from_str("unclosed property block")))
}

/// Parses the kind-specific inline fields and the closing tag of one
/// entry.
fn parse_raw_fields(ts: &Vec<CTokE>, pos: usize, k: Kind, props: Properties) -> (r: Result<
    (Raw, usize),
    PlaymissionError,
>)
    requires
        pos <= ts@.len(),
    ensures
        match r {
            Ok(t) => {
                &&& spec_parse_raw_fields(ctoks_view(ts@), pos as int, k, props@) matches Some(s)
                    && s == (t.0@, t.1 as int)
                &&& pos < t.1 <= ts@.len()
            },
            Err(_) => spec_parse_raw_fields(ctoks_view(ts@), pos as int, k, props@) is None,
        },
{
    let base = Raw {
        kind: k,
        properties: props,
        datafile_name: None,
        orientation: None,
        bbox_min: None,
        bbox_max: None,
        start_position: None,
        start_orientation: None,
        data: None,
        expanded_size: None,
    };
    match k {
        Kind::Media | Kind::Rule => {
            match parse_close(ts, pos, k.name()) {
                Some(pc) => Ok((base, pc)),
                None => Err(PlaymissionError::MalformedStructure(String::from_str(
                    "unclosed entry",
                ))),
            }
        },
        Kind::Player => {
            let (o, p1) = match parse_named_leaf(ts, pos, "ORIENTATION") {
                Some(t) => t,
                None => {
                    return Err(PlaymissionError::MalformedStructure(String::from_str(
                        "orientation expected",
                    )));
                },
            };
            let (sp, p2) = match parse_named_leaf(ts, p1, "START_POSITION") {
                Some(t) => t,
                None => {
                    return Err(PlaymissionError::MalformedStructure(String::from_str(
                        "start position expected",
                    )));
                },
            };
            let (so, p3) = match parse_named_leaf(ts, p2, "START_ORIENTATION") {
                Some(t) => t,
                None => {
                    return Err(PlaymissionError::MalformedStructure(String::from_str(
                        "start orientation expected",
                    )));
                },
            };
            match parse_close(ts, p3, k.name()) {
                Some(pc) => Ok(
                    (
                        Raw {
                            orientation: Some(o),
                            start_position: Some(sp),
                            start_orientation: Some(so),
                            ..base
                        },
                        pc,
                    ),
                ),
                None => Err(PlaymissionError::MalformedStructure(String::from_str(
                    "unclosed entry",
                ))),
            }
        },
        Kind::UserData => {
            let (d, p1) = match parse_named_leaf(ts, pos, "DATA") {
                Some(t) => t,
                None => {
                    return Err(PlaymissionError::MalformedStructure(String::from_str(
                        "data expected",
                    )));
                },
            };
            let (es, p2) = match parse_named_leaf(ts, p1, "ExpandedSize") {
                Some(t) => t,
                None => {
                    return Err(PlaymissionError::MalformedStructure(String::from_str(
                        "expanded size expected",
                    )));
                },
            };
            let es_chars = chars_of(es.as_str());
            let v = match parse_i32_chars(&es_chars) {
                Some(v) => v,
                None => {
                    return Err(PlaymissionError::Serde(
                        crate::error::MissionSerdeError::FailedInt(es),
                    ));
                },
            };
            match parse_close(ts, p2, k.name()) {
                Some(pc) => Ok((Raw { data: Some(d), expanded_size: Some(v), ..base }, pc)),
                None => Err(PlaymissionError::MalformedStructure(String::from_str(
                    "unclosed entry",
                ))),
            }
        },
        Kind::Location => {
            let (df, p1) = match parse_named_leaf(ts, pos, "DATAFILE") {
                Some(t) => t,
                None => {
                    return Err(PlaymissionError::MalformedStructure(String::from_str(
                        "datafile expected",
                    )));
                },
            };
            let (b1, p2) = match parse_named_leaf(ts, p1, "BBOX_MIN") {
                Some(t) => t,
                None => {
                    return Err(PlaymissionError::MalformedStructure(String::from_str(
                        "bounding box expected",
                    )));
                },
            };
            let (b2, p3) = match parse_named_leaf(ts, p2, "BBOX_MAX") {
                Some(t) => t,
                None => {
                    return Err(PlaymissionError::MalformedStructure(String::from_str(
                        "bounding box expected",
                    )));
                },
            };
            match parse_close(ts, p3, k.name()) {
                Some(pc) => Ok(
                    (
                        Raw {
                            datafile_name: Some(df),
                            bbox_min: Some(b1),
                            bbox_max: Some(b2),
                            ..base
                        },
                        pc,
                    ),
                ),
                None => Err(PlaymissionError::MalformedStructure(String::from_str(
                    "unclosed entry",
                ))),
            }
        },
        _ => {
            let (df, p1) = match parse_named_leaf(ts, pos, "DATAFILE") {
                Some(t) => t,
                None => {
                    return Err(PlaymissionError::MalformedStructure(String::from_str(
                        "datafile expected",
                    )));
                },
            };
            let (o, p2) = match parse_named_leaf(ts, p1, "ORIENTATION") {
                Some(t) => t,
                None => {
                    return Err(PlaymissionError::MalformedStructure(String::from_str(
                        "orientation expected",
                    )));
                },
            };
            match parse_close(ts, p2, k.name()) {
                Some(pc) => Ok((Raw { datafile_name: Some(df), orientation: Some(o), ..base }, pc)),
                None => Err(PlaymissionError::MalformedStructure(String::from_str(
                    "unclosed entry",
                ))),
            }
        },
    }
}

/// Parses one serialized object entry.
pub fn parse_raw(ts: &Vec<CTokE>, pos: usize) -> (r: Result<(Raw, usize), PlaymissionError>)
    requires
        pos <= ts@.len(),
    ensures
        match r {
            Ok(t) => {
                &&& spec_parse_raw(ctoks_view(ts@), pos as int) matches Some(s) && s == (
                t.0@, t.1 as int)
                &&& pos < t.1 <= ts@.len()
            },
            Err(_) => spec_parse_raw(ctoks_view(ts@), pos as int) is None,
        },
{
    let ghost tsv = ctoks_view(ts@);
    let n = ts.len();
    let p0 = skip_ws_exec(ts, pos);
    if p0 >= n {
        return Err(PlaymissionError::MalformedStructure(String::from_str("entry expected")));
    }
    proof {
        assert(tsv[p0 as int] == ts@[p0 as int]@);
    }
    let kind: Kind = match &ts[p0] {
        CTokE::Open(nm) => match Kind::of_name(nm) {
            Some(k) => k,
            None => {
                return Err(PlaymissionError::MalformedStructure(String::from_str(
                    "unknown entry kind",
                )));
            },
        },
        _ => {
            return Err(PlaymissionError::MalformedStructure(String::from_str("entry expected")));
        },
    };
    let (props, p1) = match parse_properties(ts, p0 + 1) {
        Ok(t) => t,
        Err(e) => {
            return Err(e);
        },
    };
    parse_raw_fields(ts, p1, kind, props)
}

/// Parses the object entries of the root element.
#[verifier::loop_isolation(false)]
pub fn parse_raws(ts: &Vec<CTokE>, pos: usize) -> (r: Result<(Vec<Raw>, usize), PlaymissionError>)
    requires
        pos <= ts@.len(),
    ensures
        match r {
            Ok(t) => {
                &&& spec_parse_raws(ctoks_view(ts@), pos as int, Seq::empty()) matches Some(s) && s
                    == (raws_view(t.0@), t.1 as int)
                &&& t.1 <= ts@.len()
            },
            Err(_) => spec_parse_raws(ctoks_view(ts@), pos as int, Seq::empty()) is None,
        },
{
    let ghost tsv = ctoks_view(ts@);
    let n = ts.len();
    let mut raws: Vec<Raw> = Vec::new();
    let mut cur: usize = pos;
    proof {
        assert(raws_view(raws@) =~= Seq::<RawV>::empty());
    }
    while cur <= n
        invariant
            pos <= cur <= ts@.len(),
            spec_parse_raws(tsv, pos as int, Seq::empty()) == spec_parse_raws(
                tsv,
                cur as int,
                raws_view(raws@),
            ),
        decreases n - cur,
    {
        match parse_close(ts, cur, "GAME") {
            Some(pc) => {
                return Ok((raws, pc));
            },
            None => {},
        }
        let ghost accpre = raws_view(raws@);
        let (raw, next) = match parse_raw(ts, cur) {
            Ok(t) => t,
            Err(e) => {
                return Err(e);
            },
        };
        let ghost rv = raw@;
        raws.push(raw);
        proof {
            assert(raws_view(raws@) =~= accpre.push(rv));
        }
        cur = next;
    }
    proof {
        assert(spec_parse_close(tsv, cur as int, "GAME"@) is None) by {
            lemma_skip_ws_bounds(tsv, cur as int);
        }
        assert(spec_parse_raw(tsv, cur as int) is None) by {
            lemma_skip_ws_bounds(tsv, cur as int);
        }
    }
    Err(PlaymissionError::MalformedStructure(String::from_str("unclosed root element")))
}

/// Parses a whole descriptor token list into the mission record.
pub fn parse_mission(ts: &Vec<CTokE>) -> (r: Result<IntermediaryMission, PlaymissionError>)
    ensures
        match r {
            Ok(m) => spec_parse_mission(ctoks_view(ts@)) == Some(m@) && m.properties.wf() && (
            forall|i: int|
                0 <= i < m@.raws.len() ==> crate::assoc::unique_keys(
                    (#[trigger] m@.raws[i]).properties,
                )),
            Err(_) => spec_parse_mission(ctoks_view(ts@)) is None,
        },
{
    let ghost tsv = ctoks_view(ts@);
    let n = ts.len();
    let p0 = skip_ws_exec(ts, 0);
    if p0 >= n {
        return Err(PlaymissionError::MalformedStructure(String::from_str(
            "root element expected",
        )));
    }
    proof {
        assert(tsv[p0 as int] == ts@[p0 as int]@);
    }
    let is_game: bool = match &ts[p0] {
        CTokE::Open(m) => *m == String::from_str("GAME"),
        _ => false,
    };
    if !is_game {
        proof {
            assert(tsv[p0 as int] != CTok::Open("GAME"@));
        }
        return Err(PlaymissionError::MalformedStructure(String::from_str(
            "root element expected",
        )));
    }
    proof {
        assert(tsv[p0 as int] == CTok::Open("GAME"@));
    }
    let (es_text, p1) = match parse_named_leaf(ts, p0 + 1, "ExpandedSize") {
        Some(t) => t,
        None => {
            return Err(PlaymissionError::MalformedStructure(String::from_str(
                "expanded size expected",
            )));
        },
    };
    let es_chars = chars_of(es_text.as_str());
    let expanded_size = match parse_i32_chars(&es_chars) {
        Some(v) => v,
        None => {
            return Err(PlaymissionError::Serde(crate::error::MissionSerdeError::FailedInt(
                es_text,
            )));
        },
    };
    let (blanking_plates, p2) = match parse_named_leaf(ts, p1, "BLANKINGPLATES") {
        Some(t) => t,
        None => {
            return Err(PlaymissionError::MalformedStructure(String::from_str(
                "blanking plates expected",
            )));
        },
    };
    let (meta, p3) = match parse_named_leaf(ts, p2, "Meta") {
        Some(t) => t,
        None => {
            return Err(PlaymissionError::MalformedStructure(String::from_str("meta expected")));
        },
    };
    let (properties, p4) = match parse_properties(ts, p3) {
        Ok(t) => t,
        Err(e) => {
            return Err(e);
        },
    };
    let (raws, p5) = match parse_raws(ts, p4) {
        Ok(t) => t,
        Err(e) => {
            return Err(e);
        },
    };
    let pe = skip_ws_exec(ts, p5);
    if pe != n {
        return Err(PlaymissionError::MalformedStructure(String::from_str(
            "content after root element",
        )));
    }
    // every entry parsed through a property collection, so keys are unique
    proof {
        lemma_parse_raws_unique(tsv, p4 as int, Seq::empty());
    }
    Ok(IntermediaryMission { expanded_size, blanking_plates, meta, properties, raws })
}

// ---------------------------------------------------------------------
// The grammar: records to tokens
// ---------------------------------------------------------------------
/// Tokens of one leaf element; empty text opens and closes immediately.
pub open spec fn spec_render_leaf(name: Seq<char>, text: Seq<char>) -> Seq<CTok> {
    if text.len() == 0 {
        seq![CTok::Open(name), CTok::Close(name)]
    } else {
        seq![CTok::Open(name), CTok::Text(text), CTok::Close(name)]
    }
}

/// The text of an optional inline field; absent fields render empty.
pub open spec fn ov(o: Option<Seq<char>>) -> Seq<char> {
    match o {
        Some(s) => s,
        None => Seq::empty(),
    }
}

/// Tokens of one property element.
pub open spec fn spec_render_property(e: EntryV) -> Seq<CTok> {
    seq![CTok::Open("PROPERTY"@)] + spec_render_leaf("NAME"@, e.0) + spec_render_leaf(
        "VTYPE"@,
        crate::value::spec_vtype_name(e.1.value),
    ) + spec_render_leaf("VALUE"@, crate::value::spec_value_text(e.1.value)) + (match e.1.flags {
        Some(f) => spec_render_leaf("FLAGS"@, f),
        None => Seq::empty(),
    }) + seq![CTok::Close("PROPERTY"@)]
}

/// Tokens of a property list.
pub open spec fn spec_render_entries(es: Seq<EntryV>) -> Seq<CTok>
    decreases es.len(),
{
    if es.len() == 0 {
        Seq::empty()
    } else {
        spec_render_property(es[0]) + spec_render_entries(es.skip(1))
    }
}

/// Tokens of one whole `PROPERTIES` block.
pub open spec fn spec_render_properties(es: Seq<EntryV>) -> Seq<CTok> {
    seq![CTok::Open("PROPERTIES"@)] + spec_render_entries(es) + seq![CTok::Close("PROPERTIES"@)]
}

/// Tokens of the kind-specific inline fields of one entry.
pub open spec fn spec_render_raw_fields(r: RawV) -> Seq<CTok> {
    match r.kind {
        Kind::Media | Kind::Rule => Seq::empty(),
        Kind::Player => spec_render_leaf("ORIENTATION"@, ov(r.orientation)) + spec_render_leaf(
            "START_POSITION"@,
            ov(r.start_position),
        ) + spec_render_leaf("START_ORIENTATION"@, ov(r.start_orientation)),
        Kind::UserData => spec_render_leaf("DATA"@, ov(r.data)) + spec_render_leaf(
            "ExpandedSize"@,
            spec_int_text(
                match r.expanded_size {
                    Some(v) => v,
                    None => 0,
                },
            ),
        ),
        Kind::Location => spec_render_leaf("DATAFILE"@, ov(r.datafile_name)) + spec_render_leaf(
            "BBOX_MIN"@,
            ov(r.bbox_min),
        ) + spec_render_leaf("BBOX_MAX"@, ov(r.bbox_max)),
        _ => spec_render_leaf("DATAFILE"@, ov(r.datafile_name)) + spec_render_leaf(
            "ORIENTATION"@,
            ov(r.orientation),
        ),
    }
}

/// Tokens of one serialized object entry.
pub open spec fn spec_render_raw(r: RawV) -> Seq<CTok> {
    seq![CTok::Open(kind_name(r.kind))] + spec_render_properties(r.properties)
        + spec_render_raw_fields(r) + seq![CTok::Close(kind_name(r.kind))]
}

/// Tokens of an entry list.
pub open spec fn spec_render_raws(rs: Seq<RawV>) -> Seq<CTok>
    decreases rs.len(),
{
    if rs.len() == 0 {
        Seq::empty()
    } else {
        spec_render_raw(rs[0]) + spec_render_raws(rs.skip(1))
    }
}

/// Tokens of the whole descriptor.
pub open spec fn spec_render_mission(m: MissionV) -> Seq<CTok> {
    seq![CTok::Open("GAME"@)] + spec_render_leaf("ExpandedSize"@, spec_int_text(m.expanded_size))
        + spec_render_leaf("BLANKINGPLATES"@, m.blanking_plates) + spec_render_leaf(
        "Meta"@,
        m.meta,
    ) + spec_render_properties(m.properties) + spec_render_raws(m.raws) + seq![
        CTok::Close("GAME"@),
    ]
}

/// Appends the tokens of one leaf element.
fn push_leaf(out: &mut Vec<CTokE>, name: &str, text: String)
    ensures
        ctoks_view(final(out)@) == ctoks_view(old(out)@) + spec_render_leaf(name@, text@),
{
    let ghost pre = ctoks_view(out@);
    out.push(CTokE::Open(name.to_owned()));
    if !text.as_str().is_empty() {
        proof {
            assert(text@.len() > 0);
        }
        out.push(CTokE::Text(text));
        out.push(CTokE::Close(name.to_owned()));
        proof {
            assert(ctoks_view(out@) =~= pre + spec_render_leaf(name@, out@[out@.len() - 2]@->Text_0));
        }
    } else {
        proof {
            assert(text@.len() == 0);
        }
        out.push(CTokE::Close(name.to_owned()));
        proof {
            assert(ctoks_view(out@) =~= pre + spec_render_leaf(name@, text@));
        }
    }
}

/// Appends the tokens of one property element.
fn push_property(out: &mut Vec<CTokE>, key: String, p: &Property)
    ensures
        ctoks_view(final(out)@) == ctoks_view(old(out)@) + spec_render_property((key@, p@)),
{
    let ghost pre = ctoks_view(out@);
    let ghost kv = key@;
    let ghost l1 = spec_render_leaf("NAME"@, kv);
    let ghost l2 = spec_render_leaf("VTYPE"@, crate::value::spec_vtype_name(p@.value));
    let ghost l3 = spec_render_leaf("VALUE"@, crate::value::spec_value_text(p@.value));
    let ghost lf: Seq<CTok> = match p@.flags {
        Some(f) => spec_render_leaf("FLAGS"@, f),
        None => Seq::empty(),
    };
    out.push(CTokE::Open(String::from_str("PROPERTY")));
    proof {
        assert(ctoks_view(out@) =~= pre.push(CTok::Open("PROPERTY"@)));
    }
    push_leaf(out, "NAME", key);
    push_leaf(out, "VTYPE", p.value().vtype().to_owned());
    push_leaf(out, "VALUE", p.value().to_text());
    match p.flags() {
        Some(f) => {
            push_leaf(out, "FLAGS", f.clone());
        },
        None => {},
    }
    proof {
        assert(ctoks_view(out@) =~= (((pre.push(CTok::Open("PROPERTY"@)) + l1) + l2) + l3) + lf);
    }
    out.push(CTokE::Close(String::from_str("PROPERTY")));
    proof {
        assert(ctoks_view(out@) =~= ((((pre.push(CTok::Open("PROPERTY"@)) + l1) + l2) + l3)
            + lf).push(CTok::Close("PROPERTY"@)));
        assert(ctoks_view(out@) =~= pre + spec_render_property((kv, p@)));
    }
}

/// Renders the whole descriptor record to canonical tokens.
#[verifier::loop_isolation(false)]
pub fn render_mission(m: &IntermediaryMission) -> (out: Vec<CTokE>)
    ensures
        ctoks_view(out@) == spec_render_mission(m@),
{
    let mut out: Vec<CTokE> = Vec::new();
    proof {
        assert(ctoks_view(out@) =~= Seq::<CTok>::empty());
    }
    out.push(CTokE::Open(String::from_str("GAME")));
    proof {
        assert(ctoks_view(out@) =~= Seq::<CTok>::empty().push(CTok::Open("GAME"@)));
    }
    push_leaf(&mut out, "ExpandedSize", format_i32(m.expanded_size));
    push_leaf(&mut out, "BLANKINGPLATES", m.blanking_plates.clone());
    push_leaf(&mut out, "Meta", m.meta.clone());
    push_properties(&mut out, &m.properties);
    let nraws = m.raws.len();
    let ghost mid = ctoks_view(out@);
    let mut i: usize = 0;
    proof {
        assert(raws_view(m.raws@).take(0) =~= Seq::<RawV>::empty());
        assert(mid + spec_render_raws(raws_view(m.raws@).take(0)) =~= mid);
    }
    while i < nraws
        invariant
            i <= nraws,
            nraws == m.raws@.len(),
            ctoks_view(out@) == mid + spec_render_raws(raws_view(m.raws@).take(i as int)),
        decreases nraws - i,
    {
        let ghost pre = ctoks_view(out@);
        push_raw(&mut out, &m.raws[i]);
        proof {
            let rv = raws_view(m.raws@);
            assert(rv.take(i + 1) =~= rv.take(i as int).push(rv[i as int]));
            lemma_render_raws_push(rv.take(i as int), rv[i as int]);
        }
        i = i + 1;
    }
    let ghost mid3 = ctoks_view(out@);
    out.push(CTokE::Close(String::from_str("GAME")));
    proof {
        assert(raws_view(m.raws@).take(nraws as int) =~= raws_view(m.raws@));
        assert(ctoks_view(out@) =~= mid3.push(CTok::Close("GAME"@)));
        assert(ctoks_view(out@) =~= spec_render_mission(m@));
    }
    out
}

/// Rendering an appended entry appends its tokens.
pub proof fn lemma_render_raws_push(rs: Seq<RawV>, r: RawV)
    ensures
        spec_render_raws(rs.push(r)) == spec_render_raws(rs) + spec_render_raw(r),
    decreases rs.len(),
{
    if rs.len() == 0 {
        assert(rs.push(r)[0] == r);
        assert(rs.push(r).skip(1) =~= Seq::<RawV>::empty());
        assert(spec_render_raws(Seq::<RawV>::empty()) == Seq::<CTok>::empty());
        assert(spec_render_raws(rs.push(r)) =~= spec_render_raw(r));
        assert(spec_render_raws(rs) + spec_render_raw(r) =~= spec_render_raw(r));
    } else {
        assert(rs.push(r).skip(1) =~= rs.skip(1).push(r));
        assert(rs.push(r)[0] == rs[0]);
        lemma_render_raws_push(rs.skip(1), r);
        assert(spec_render_raw(rs[0]) + (spec_render_raws(rs.skip(1)) + spec_render_raw(r)) =~= (
        spec_render_raw(rs[0]) + spec_render_raws(rs.skip(1))) + spec_render_raw(r));
    }
}

/// Rendering an appended property appends its tokens.
pub proof fn lemma_render_entries_push(es: Seq<EntryV>, e: EntryV)
    ensures
        spec_render_entries(es.push(e)) == spec_render_entries(es) + spec_render_property(e),
    decreases es.len(),
{
    if es.len() == 0 {
        assert(es.push(e)[0] == e);
        assert(es.push(e).skip(1) =~= Seq::<EntryV>::empty());
        assert(spec_render_entries(Seq::<EntryV>::empty()) == Seq::<CTok>::empty());
        assert(spec_render_entries(es.push(e)) =~= spec_render_property(e));
        assert(spec_render_entries(es) + spec_render_property(e) =~= spec_render_property(e));
    } else {
        assert(es.push(e).skip(1) =~= es.skip(1).push(e));
        assert(es.push(e)[0] == es[0]);
        lemma_render_entries_push(es.skip(1), e);
        assert(spec_render_property(es[0]) + (spec_render_entries(es.skip(1))
            + spec_render_property(e)) =~= (spec_render_property(es[0]) + spec_render_entries(
            es.skip(1),
        )) + spec_render_property(e));
    }
}

/// Appends the tokens of one whole `PROPERTIES` block.
#[verifier::loop_isolation(false)]
pub(crate) fn push_properties(out: &mut Vec<CTokE>, props: &Properties)
    ensures
        ctoks_view(final(out)@) == ctoks_view(old(out)@) + spec_render_properties(props@),
{
    let ghost pre = ctoks_view(out@);
    out.push(CTokE::Open(String::from_str("PROPERTIES")));
    proof {
        assert(ctoks_view(out@) =~= pre.push(CTok::Open("PROPERTIES"@)));
    }
    let ghost mid = ctoks_view(out@);
    let n = props.len();
    let mut i: usize = 0;
    proof {
        assert(props@.take(0) =~= Seq::<EntryV>::empty());
        assert(mid + spec_render_entries(props@.take(0)) =~= mid);
    }
    while i < n
        invariant
            i <= n,
            n == props@.len(),
            ctoks_view(out@) == mid + spec_render_entries(props@.take(i as int)),
        decreases n - i,
    {
        let key = props.key_at(i);
        let p = props.property_at(i);
        push_property(out, key, p);
        proof {
            assert(props@.take(i + 1) =~= props@.take(i as int).push(props@[i as int]));
            lemma_render_entries_push(props@.take(i as int), props@[i as int]);
        }
        i = i + 1;
    }
    let ghost mid2 = ctoks_view(out@);
    out.push(CTokE::Close(String::from_str("PROPERTIES")));
    proof {
        assert(props@.take(n as int) =~= props@);
        assert(ctoks_view(out@) =~= mid2.push(CTok::Close("PROPERTIES"@)));
        assert(ctoks_view(out@) =~= pre + spec_render_properties(props@));
    }
}

/// Appends the tokens of one serialized object entry.
fn push_raw(out: &mut Vec<CTokE>, r: &Raw)
    ensures
        ctoks_view(final(out)@) == ctoks_view(old(out)@) + spec_render_raw(r@),
{
    let ghost pre = ctoks_view(out@);
    out.push(CTokE::Open(r.kind.name().to_owned()));
    proof {
        assert(ctoks_view(out@) =~= pre.push(CTok::Open(kind_name(r.kind))));
    }
    push_properties(out, &r.properties);
    match r.kind {
        Kind::Media | Kind::Rule => {},
        Kind::Player => {
            push_leaf(out, "ORIENTATION", clone_or_empty(&r.orientation));
            push_leaf(out, "START_POSITION", clone_or_empty(&r.start_position));
            push_leaf(out, "START_ORIENTATION", clone_or_empty(&r.start_orientation));
        },
        Kind::UserData => {
            push_leaf(out, "DATA", clone_or_empty(&r.data));
            let es: i32 = match r.expanded_size {
                Some(v) => v,
                None => 0,
            };
            push_leaf(out, "ExpandedSize", format_i32(es));
        },
        Kind::Location => {
            push_leaf(out, "DATAFILE", clone_or_empty(&r.datafile_name));
            push_leaf(out, "BBOX_MIN", clone_or_empty(&r.bbox_min));
            push_leaf(out, "BBOX_MAX", clone_or_empty(&r.bbox_max));
        },
        _ => {
            push_leaf(out, "DATAFILE", clone_or_empty(&r.datafile_name));
            push_leaf(out, "ORIENTATION", clone_or_empty(&r.orientation));
        },
    }
    proof {
        assert(ctoks_view(out@) =~= (pre.push(CTok::Open(kind_name(r.kind))) + spec_render_properties(
            r.properties@,
        )) + spec_render_raw_fields(r@));
    }
    let ghost mid2 = ctoks_view(out@);
    out.push(CTokE::Close(r.kind.name().to_owned()));
    proof {
        assert(ctoks_view(out@) =~= mid2.push(CTok::Close(kind_name(r.kind))));
        assert(ctoks_view(out@) =~= pre + spec_render_raw(r@));
    }
}

/// Clones an optional string, empty when absent.
fn clone_or_empty(o: &Option<String>) -> (r: String)
    ensures
        r@ == ov(opt_view(*o)),
{
    match o {
        Some(s) => s.clone(),
        None => String::new(),
    }
}

/// A record whose values the engine could have produced itself: parsed
/// values pass the value validity predicate and the inline size fits its
/// machine word.
pub open spec fn raw_values_wf(r: RawV) -> bool {
    &&& entries_values_wf(r.properties)
    &&& match r.expanded_size {
        Some(v) => -0x8000_0000 <= v <= 0x7fff_ffff,
        None => true,
    }
}

/// Every parsed property block holds such values.
pub proof fn lemma_parse_prop_entries_values_wf(ts: Seq<CTok>, pos: int, acc: Seq<EntryV>)
    requires
        spec_parse_prop_entries(ts, pos, acc) is Some,
        entries_values_wf(acc),
    ensures
        entries_values_wf(spec_parse_prop_entries(ts, pos, acc)->Some_0.0),
    decreases ts.len() - pos,
{
    match spec_parse_close(ts, pos, "PROPERTIES"@) {
        Some(_) => {},
        None => {
            let t = spec_parse_property(ts, pos)->Some_0;
            assert(crate::value::value_wf(t.0.1.value)) by {
                let p0 = skip_ws(ts, pos);
                let nl = spec_parse_named_leaf(ts, p0 + 1, "NAME"@)->Some_0;
                let vt = spec_parse_named_leaf(ts, nl.1, "VTYPE"@)->Some_0;
                let val = spec_parse_named_leaf(ts, vt.1, "VALUE"@)->Some_0;
                crate::value::lemma_value_new_wf(strip_float_suffix(val.0, vt.0), vt.0);
            }
            let acc2 = acc.push(t.0);
            assert(entries_values_wf(acc2)) by {
                assert(forall|i: int|
                    0 <= i < acc2.len() ==> (#[trigger] acc2[i]) == if i < acc.len() {
                        acc[i]
                    } else {
                        t.0
                    });
            }
            lemma_parse_prop_entries_values_wf(ts, t.1, acc2);
        },
    }
}

/// Every parsed property block holds such values.
pub proof fn lemma_parse_properties_values_wf(ts: Seq<CTok>, pos: int)
    requires
        spec_parse_properties(ts, pos) is Some,
    ensures
        entries_values_wf(spec_parse_properties(ts, pos)->Some_0.0),
{
    let p0 = skip_ws(ts, pos);
    assert(entries_values_wf(Seq::<EntryV>::empty()));
    lemma_parse_prop_entries_values_wf(ts, p0 + 1, Seq::empty());
}

/// Every parsed record holds such values.
pub proof fn lemma_parse_raw_values_wf(ts: Seq<CTok>, pos: int)
    requires
        spec_parse_raw(ts, pos) is Some,
    ensures
        raw_values_wf(spec_parse_raw(ts, pos)->Some_0.0),
{
    let p0 = skip_ws(ts, pos);
    match ts[p0] {
        CTok::Open(n) => {
            let k = spec_kind_of_name(n)->Some_0;
            let props = spec_parse_properties(ts, p0 + 1)->Some_0;
            lemma_parse_properties_values_wf(ts, p0 + 1);
            let fields = spec_parse_raw_fields(ts, props.1, k, props.0);
            assert(fields->Some_0.0.properties == props.0);
        },
        _ => {},
    }
}

/// Every record of a parsed descriptor holds such values.
pub proof fn lemma_parse_raws_values_wf(ts: Seq<CTok>, pos: int, acc: Seq<RawV>)
    requires
        spec_parse_raws(ts, pos, acc) is Some,
        forall|i: int| 0 <= i < acc.len() ==> raw_values_wf(#[trigger] acc[i]),
    ensures
        forall|i: int|
            0 <= i < spec_parse_raws(ts, pos, acc)->Some_0.0.len() ==> raw_values_wf(
                #[trigger] spec_parse_raws(ts, pos, acc)->Some_0.0[i],
            ),
    decreases ts.len() - pos,
{
    match spec_parse_close(ts, pos, "GAME"@) {
        Some(_) => {},
        None => {
            let t = spec_parse_raw(ts, pos)->Some_0;
            lemma_parse_raw_values_wf(ts, pos);
            assert(forall|i: int|
                0 <= i < acc.push(t.0).len() ==> raw_values_wf(#[trigger] acc.push(t.0)[i]));
            lemma_parse_raws_values_wf(ts, t.1, acc.push(t.0));
        },
    }
}

/// Every parsed record carries exactly its kind's inline fields and
/// unique property keys.
pub proof fn lemma_parse_raw_wf(ts: Seq<CTok>, pos: int)
    requires
        spec_parse_raw(ts, pos) is Some,
    ensures
        raw_wf(spec_parse_raw(ts, pos)->Some_0.0),
{
    lemma_parse_raw_unique(ts, pos);
    let p0 = skip_ws(ts, pos);
    match ts[p0] {
        CTok::Open(n) => {
            let k = spec_kind_of_name(n)->Some_0;
            let props = spec_parse_properties(ts, p0 + 1)->Some_0;
            let fields = spec_parse_raw_fields(ts, props.1, k, props.0);
            assert(fields->Some_0.0.kind == k);
        },
        _ => {},
    }
}

/// Every record of a parsed mission carries exactly its kind's inline
/// fields and unique property keys.
pub proof fn lemma_parse_raws_wf(ts: Seq<CTok>, pos: int, acc: Seq<RawV>)
    requires
        spec_parse_raws(ts, pos, acc) is Some,
        forall|i: int| 0 <= i < acc.len() ==> raw_wf(#[trigger] acc[i]),
    ensures
        forall|i: int|
            0 <= i < spec_parse_raws(ts, pos, acc)->Some_0.0.len() ==> raw_wf(
                #[trigger] spec_parse_raws(ts, pos, acc)->Some_0.0[i],
            ),
    decreases ts.len() - pos,
{
    match spec_parse_close(ts, pos, "GAME"@) {
        Some(_) => {},
        None => {
            let t = spec_parse_raw(ts, pos)->Some_0;
            lemma_parse_raw_wf(ts, pos);
            assert(forall|i: int|
                0 <= i < acc.push(t.0).len() ==> raw_wf(#[trigger] acc.push(t.0)[i]));
            lemma_parse_raws_wf(ts, t.1, acc.push(t.0));
        },
    }
}

/// Every record of a parsed mission carries exactly its kind's inline
/// fields and unique property keys.
pub proof fn lemma_parse_mission_wf(ts: Seq<CTok>)
    requires
        spec_parse_mission(ts) is Some,
    ensures
        forall|i: int|
            0 <= i < spec_parse_mission(ts)->Some_0.raws.len() ==> raw_wf(
                #[trigger] spec_parse_mission(ts)->Some_0.raws[i],
            ),
{
    let p0 = skip_ws(ts, 0);
    let l1 = spec_parse_named_leaf(ts, p0 + 1, "ExpandedSize"@)->Some_0;
    let l2 = spec_parse_named_leaf(ts, l1.1, "BLANKINGPLATES"@)->Some_0;
    let l3 = spec_parse_named_leaf(ts, l2.1, "Meta"@)->Some_0;
    let pr = spec_parse_properties(ts, l3.1)->Some_0;
    lemma_parse_raws_wf(ts, pr.1, Seq::empty());
}

/// Every record of a parsed mission holds values the engine can produce.
pub proof fn lemma_parse_mission_values_wf(ts: Seq<CTok>)
    requires
        spec_parse_mission(ts) is Some,
    ensures
        forall|i: int|
            0 <= i < spec_parse_mission(ts)->Some_0.raws.len() ==> raw_values_wf(
                #[trigger] spec_parse_mission(ts)->Some_0.raws[i],
            ),
{
    let p0 = skip_ws(ts, 0);
    let l1 = spec_parse_named_leaf(ts, p0 + 1, "ExpandedSize"@)->Some_0;
    let l2 = spec_parse_named_leaf(ts, l1.1, "BLANKINGPLATES"@)->Some_0;
    let l3 = spec_parse_named_leaf(ts, l2.1, "Meta"@)->Some_0;
    let pr = spec_parse_properties(ts, l3.1)->Some_0;
    lemma_parse_raws_values_wf(ts, pr.1, Seq::empty());
}

/// Every record a successful entry parse yields has unique property keys.
pub proof fn lemma_parse_raw_unique(ts: Seq<CTok>, pos: int)
    requires
        spec_parse_raw(ts, pos) is Some,
    ensures
        crate::assoc::unique_keys(spec_parse_raw(ts, pos)->Some_0.0.properties),
{
    let p0 = skip_ws(ts, pos);
    match ts[p0] {
        CTok::Open(n) => {
            let k = spec_kind_of_name(n)->Some_0;
            let props = spec_parse_properties(ts, p0 + 1)->Some_0.0;
            lemma_parse_properties_unique(ts, p0 + 1);
            let fields = spec_parse_raw_fields(ts, spec_parse_properties(ts, p0 + 1)->Some_0.1, k, props);
            assert(fields->Some_0.0.properties == props);
        },
        _ => {},
    }
}

/// A successful property-block parse yields unique keys.
pub proof fn lemma_parse_properties_unique(ts: Seq<CTok>, pos: int)
    requires
        spec_parse_properties(ts, pos) is Some,
    ensures
        crate::assoc::unique_keys(spec_parse_properties(ts, pos)->Some_0.0),
{
    let p0 = skip_ws(ts, pos);
    lemma_parse_prop_entries_unique(ts, p0 + 1, Seq::empty());
}

/// The entry fold keeps keys unique.
pub proof fn lemma_parse_prop_entries_unique(ts: Seq<CTok>, pos: int, acc: Seq<EntryV>)
    requires
        spec_parse_prop_entries(ts, pos, acc) is Some,
        crate::assoc::unique_keys(acc),
    ensures
        crate::assoc::unique_keys(spec_parse_prop_entries(ts, pos, acc)->Some_0.0),
    decreases ts.len() - pos,
{
    match spec_parse_close(ts, pos, "PROPERTIES"@) {
        Some(_) => {},
        None => {
            let t = spec_parse_property(ts, pos)->Some_0;
            crate::assoc::lemma_push_fresh_preserves_unique(acc, t.0.0, t.0.1);
            lemma_parse_prop_entries_unique(ts, t.1, acc.push(t.0));
        },
    }
}

/// Every record of a successful entry-list parse has unique property
/// keys.
pub proof fn lemma_parse_raws_unique(ts: Seq<CTok>, pos: int, acc: Seq<RawV>)
    requires
        spec_parse_raws(ts, pos, acc) is Some,
        forall|i: int|
            0 <= i < acc.len() ==> crate::assoc::unique_keys((#[trigger] acc[i]).properties),
    ensures
        forall|i: int|
            0 <= i < spec_parse_raws(ts, pos, acc)->Some_0.0.len() ==> crate::assoc::unique_keys(
                (#[trigger] spec_parse_raws(ts, pos, acc)->Some_0.0[i]).properties,
            ),
    decreases ts.len() - pos,
{
    match spec_parse_close(ts, pos, "GAME"@) {
        Some(_) => {},
        None => {
            let t = spec_parse_raw(ts, pos)->Some_0;
            lemma_parse_raw_unique(ts, pos);
            assert(forall|i: int|
                0 <= i < acc.push(t.0).len() ==> crate::assoc::unique_keys(
                    (#[trigger] acc.push(t.0)[i]).properties,
                ));
            lemma_parse_raws_unique(ts, t.1, acc.push(t.0));
        },
    }
}

} // verus!
