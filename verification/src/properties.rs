//! The typed property model: a name-keyed collection of typed values with
//! optional flag strings, a directional default/overlay merge, and the
//! single mutation primitive used by the edit layer.
use vstd::prelude::*;
use vstd::pervasive::VecAdditionalExecFns;
use crate::assoc::{spec_index_of, spec_has_key, spec_lookup, unique_keys, lemma_index_of_in_range, lemma_index_of_first, lemma_index_of_none, lemma_index_of_has, lemma_push_fresh_preserves_unique, lemma_update_value_preserves_unique, lemma_remove_preserves_unique};
use crate::error::{MissionSerdeError, PlaymissionError};
use crate::value::{Value, ValueV, spec_value_new, spec_vtype_name, value_wf, lemma_value_new_wf};

verus! {

/// Mathematical model of one property.
pub struct PropertyV {
    pub value: ValueV,
    pub flags: Option<Seq<char>>,
}

/// One property: a typed value and an optional, uninterpreted flag string.
#[derive(Debug, Clone, PartialEq)]
pub struct Property {
    value: Value,
    flags: Option<String>,
}

impl View for Property {
    type V = PropertyV;

    closed spec fn view(&self) -> PropertyV {
        PropertyV {
            value: self.value@,
            flags: match self.flags {
                Some(ref f) => Some(f@),
                None => None,
            },
        }
    }
}

impl DeepView for Property {
    type V = PropertyV;

    open spec fn deep_view(&self) -> PropertyV {
        self@
    }
}

impl Property {
    /// Creates a property from a value and optional flags.
    pub fn new(value: Value, flags: Option<String>) -> (r: Property)
        ensures
            r@.value == value@,
            r@.flags == (match flags {
                Some(ref f) => Some::<Seq<char>>(f@),
                None => None::<Seq<char>>,
            }),
    {
        Property { value, flags }
    }

    /// Borrows the value.
    pub fn value(&self) -> (r: &Value)
        ensures
            r@ == self@.value,
    {
        &self.value
    }

    /// Borrows the flags.
    pub fn flags(&self) -> (r: Option<&String>)
        ensures
            match r {
                Some(f) => self@.flags == Some(f@),
                None => self@.flags is None,
            },
    {
        match self.flags {
            Some(ref f) => Some(f),
            None => None,
        }
    }

    /// Consumes the property into its value.
    pub fn take_value(self) -> (r: Value)
        ensures
            r@ == self@.value,
    {
        self.value
    }

    /// Structurally copies this property.
    pub fn duplicate(&self) -> (r: Property)
        ensures
            r@ == self@,
    {
        Property {
            value: self.value.duplicate(),
            flags: match self.flags {
                Some(ref f) => Some(f.clone()),
                None => None,
            },
        }
    }
}

/// One entry of the model: a key and a property.
pub type EntryV = (Seq<char>, PropertyV);

// ---------------------------------------------------------------------
// Lookup on entry sequences
// ---------------------------------------------------------------------
// ---------------------------------------------------------------------
// The merge, mathematically
// ---------------------------------------------------------------------
/// Why a directional merge failed.
pub enum MergeErr {
    /// A raw string would not coerce to the default's declared type:
    /// the string and the type tag.
    Cast(Seq<char>, Seq<char>),
    /// A non-string value met a default of another type: the key, the
    /// found type tag and the expected type tag.
    Mismatch(Seq<char>, Seq<char>, Seq<char>),
}

/// Merges one overlay property onto a default of the same key: the
/// default declares the type, the overlay supplies the value, and the
/// overlay's flags win when present.
pub open spec fn spec_merge_entry(def: PropertyV, k: Seq<char>, v: PropertyV) -> Result<
    PropertyV,
    MergeErr,
> {
    let new_value = match v.value {
        ValueV::String(s) => match spec_value_new(s, spec_vtype_name(def.value)) {
            Some(w) => Ok(w),
            None => Err(MergeErr::Cast(s, spec_vtype_name(def.value))),
        },
        _ => if spec_vtype_name(v.value) == spec_vtype_name(def.value) {
            Ok(v.value)
        } else {
            Err(MergeErr::Mismatch(k, spec_vtype_name(v.value), spec_vtype_name(def.value)))
        },
    };
    match new_value {
        Ok(w) => Ok(
            PropertyV {
                value: w,
                flags: if v.flags is Some {
                    v.flags
                } else {
                    def.flags
                },
            },
        ),
        Err(e) => Err(e),
    }
}

/// Folds the overlay entries onto the defaults, one at a time: an overlay
/// entry whose key has a default is merged in place, any other is
/// appended untouched.
pub open spec fn spec_default_for(d: Seq<EntryV>, o: Seq<EntryV>) -> Result<Seq<EntryV>, MergeErr>
    decreases o.len(),
{
    if o.len() == 0 {
        Ok(d)
    } else {
        let k = o[0].0;
        let v = o[0].1;
        let step: Result<Seq<EntryV>, MergeErr> = if spec_has_key(d, k) {
            match spec_merge_entry(d[spec_index_of(d, k)].1, k, v) {
                Ok(m) => Ok(d.update(spec_index_of(d, k), (k, m))),
                Err(e) => Err(e),
            }
        } else {
            Ok(d.push((k, v)))
        };
        match step {
            Ok(d2) => spec_default_for(d2, o.skip(1)),
            Err(e) => Err(e),
        }
    }
}

// ---------------------------------------------------------------------
// The collection
// ---------------------------------------------------------------------
/// A name-keyed collection of properties. Keys are unique.
#[derive(Debug, Clone, PartialEq)]
pub struct Properties {
    entries: Vec<(String, Property)>,
}

impl View for Properties {
    type V = Seq<EntryV>;

    closed spec fn view(&self) -> Seq<EntryV> {
        Seq::new(self.entries@.len(), |i: int| (self.entries@[i].0@, self.entries@[i].1@))
    }
}

impl Properties {
    /// Keys are unique: the collection invariant.
    pub open spec fn wf(&self) -> bool {
        unique_keys(self@)
    }

    /// Creates an empty collection.
    pub fn new() -> (r: Properties)
        ensures
            r@ == Seq::<EntryV>::empty(),
            r.wf(),
    {
        let r = Properties { entries: Vec::new() };
        proof {
            assert(r@ =~= Seq::<EntryV>::empty());
        }
        r
    }

    /// Number of properties held.
    pub fn len(&self) -> (n: usize)
        ensures
            n == self@.len(),
    {
        self.entries.len()
    }

    /// The key at a position, cloned.
    pub fn key_at(&self, i: usize) -> (k: String)
        requires
            i < self@.len(),
        ensures
            k@ == self@[i as int].0,
    {
        self.entries[i].0.clone()
    }

    /// Borrows the property at a position.
    pub fn property_at(&self, i: usize) -> (p: &Property)
        requires
            i < self@.len(),
        ensures
            p@ == self@[i as int].1,
    {
        &self.entries[i].1
    }

    /// Index of the first entry with the given key.
    pub fn find_index(&self, k: &str) -> (r: Option<usize>)
        ensures
            match r {
                Some(i) => spec_index_of(self@, k@) == i as int && i < self@.len()
                    && self@[i as int].0 == k@,
                None => !spec_has_key(self@, k@),
            },
    {
        let n = self.entries.len();
        let mut i: usize = 0;
        let key: String = k.to_owned();
        while i < n
            invariant
                i <= n,
                n == self@.len(),
                key@ == k@,
                forall|j: int| 0 <= j < i ==> (#[trigger] self@[j].0) != k@,
            decreases n - i,
        {
            if self.entries[i].0 == key {
                proof {
                    lemma_index_of_first(self@, k@, i as int);
                }
                return Some(i);
            }
            i = i + 1;
        }
        proof {
            lemma_index_of_none(self@, k@);
            lemma_index_of_in_range(self@, k@);
        }
        None
    }

    /// Adds a property under a fresh key; a taken key is an error and
    /// leaves the collection unchanged.
    pub fn add(&mut self, k: String, v: Property) -> (r: Result<(), PlaymissionError>)
        ensures
            match r {
                Ok(_) => !spec_has_key(old(self)@, k@) && final(self)@ == old(self)@.push((k@, v@)),
                Err(e) => spec_has_key(old(self)@, k@) && final(self)@ == old(self)@ && e
                    == PlaymissionError::TakenKey(k),
            },
            old(self).wf() ==> final(self).wf(),
    {
        match self.find_index(k.as_str()) {
            Some(_) => Err(PlaymissionError::TakenKey(k)),
            None => {
                let ghost pre = self@;
                self.entries.push((k, v));
                proof {
                    assert(self@ =~= pre.push((k@, v@)));
                    if unique_keys(pre) {
                        lemma_push_fresh_preserves_unique(pre, k@, v@);
                    }
                }
                Ok(())
            },
        }
    }

    /// Coerces a raw string against a type tag and adds the result under
    /// a fresh key; a taken key or a failed coercion is an error and
    /// leaves the collection unchanged.
    pub fn insert_new(&mut self, k: String, v: String, vtype: &str, flags: Option<String>) -> (r:
        Result<(), PlaymissionError>)
        ensures
            match r {
                Ok(_) => {
                    &&& !spec_has_key(old(self)@, k@)
                    &&& spec_value_new(v@, vtype@) matches Some(w) && final(self)@ == old(self)@.push(
                        (
                            k@,
                            PropertyV {
                                value: w,
                                flags: match flags {
                                    Some(ref f) => Some(f@),
                                    None => None,
                                },
                            },
                        ),
                    )
                },
                Err(_) => final(self)@ == old(self)@ && (spec_has_key(old(self)@, k@) || spec_value_new(
                    v@,
                    vtype@,
                ) is None),
            },
            r matches Err(e) ==> (e == PlaymissionError::TakenKey(k) && spec_has_key(
                old(self)@,
                k@,
            )) || (e matches PlaymissionError::WrongTypeCast(a, b) && a@ == v@ && b@ == vtype@
                && spec_value_new(v@, vtype@) is None),
            old(self).wf() ==> final(self).wf(),
    {
        if let Some(_) = self.find_index(k.as_str()) {
            return Err(PlaymissionError::TakenKey(k));
        }
        let ghost vv = v@;
        match Value::new(v, vtype) {
            Ok(value) => {
                let ghost pre = self@;
                self.entries.push((k, Property { value, flags }));
                proof {
                    assert(self@ =~= pre.push((k@, self@[pre.len() as int].1)));
                    if unique_keys(pre) {
                        lemma_push_fresh_preserves_unique(pre, k@, self@[pre.len() as int].1);
                    }
                }
                Ok(())
            },
            Err(e) => {
                let s = match e {
                    MissionSerdeError::FailedBool(s) => s,
                    MissionSerdeError::FailedFloat(s) => s,
                    MissionSerdeError::FailedInt(s) => s,
                    MissionSerdeError::NoFileEntry(s) => s,
                    MissionSerdeError::Overlap(s) => s,
                };
                Err(PlaymissionError::WrongTypeCast(s, vtype.to_owned()))
            },
        }
    }

    /// Borrows the value under a key; a missing key is an error.
    pub fn get_value(&self, k: &str) -> (r: Result<&Value, PlaymissionError>)
        ensures
            match r {
                Ok(v) => spec_lookup(self@, k@) matches Some(p) && p.value == v@,
                Err(e) => {
                    &&& !spec_has_key(self@, k@)
                    &&& e matches PlaymissionError::MissingProperty(m) && m@ == k@
                },
            },
    {
        match self.find_index(k) {
            Some(i) => Ok(&self.entries[i].1.value),
            None => Err(PlaymissionError::MissingProperty(k.to_owned())),
        }
    }

    /// Removes and returns the value under a key; a missing key is an
    /// error and leaves the collection unchanged.
    pub fn take_value(&mut self, k: &str) -> (r: Result<Value, PlaymissionError>)
        ensures
            match r {
                Ok(v) => spec_lookup(old(self)@, k@) matches Some(p) && p.value == v@ && final(self)@
                    == old(self)@.remove(spec_index_of(old(self)@, k@)),
                Err(e) => {
                    &&& !spec_has_key(old(self)@, k@)
                    &&& final(self)@ == old(self)@
                    &&& e matches PlaymissionError::MissingProperty(m) && m@ == k@
                },
            },
            old(self).wf() ==> final(self).wf(),
    {
        match self.find_index(k) {
            Some(i) => {
                let ghost pre = self@;
                let (_, p) = self.entries.remove(i);
                proof {
                    assert(self@ =~= pre.remove(i as int));
                    if unique_keys(pre) {
                        lemma_remove_preserves_unique(pre, i as int);
                    }
                }
                Ok(p.take_value())
            },
            None => Err(PlaymissionError::MissingProperty(k.to_owned())),
        }
    }

    /// Merges another collection over this one as its default template:
    /// this collection declares each shared key's type and fallback
    /// flags, the other supplies values. Consumes both and returns the
    /// merged collection, or the first merge failure.
    #[verifier::loop_isolation(false)]
    pub fn default_for(self, other: Properties) -> (r: Result<Properties, PlaymissionError>)
        ensures
            match spec_default_for(self@, other@) {
                Ok(res) => r matches Ok(p) && p@ == res && (self.wf() ==> p.wf()),
                Err(MergeErr::Cast(s, t)) => r matches Err(e) && e
                    matches PlaymissionError::WrongTypeCast(a, b) && a@ == s && b@ == t,
                Err(MergeErr::Mismatch(k, f, x)) => r matches Err(e) && e
                    matches PlaymissionError::MergedWrongType(a, b, c) && a@ == k && b@ == f && c@
                    == x,
            },
    {
        let mut res = self;
        let mut rest = other;
        let ghost d0 = res@;
        let ghost o0 = rest@;
        let ghost wf0 = res.wf();
        while rest.entries.len() > 0
            invariant
                spec_default_for(d0, o0) == spec_default_for(res@, rest@),
                wf0 == unique_keys(d0),
                wf0 ==> res.wf(),
            decreases rest.entries.len(),
    	{
            let ghost dpre = res@;
            let ghost opre = rest@;
            let (k, v) = rest.entries.remove(0);
            proof {
                assert(rest@ =~= opre.skip(1));
                assert(opre[0] == (k@, v@));
            }
            match res.find_index(k.as_str()) {
                Some(i) => {
                    let def = &res.entries[i].1;
                    let def_vtype: &'static str = def.value.vtype();
                    let ghost defv = def@;
                    let Property { value: vv, flags: vf } = v;
                    let new_value: Value = match vv {
                        Value::String(s) => {
                            match Value::new(s, def_vtype) {
                                Ok(w) => w,
                                Err(e) => {
                                    let s2 = match e {
                                        MissionSerdeError::FailedBool(x) => x,
                                        MissionSerdeError::FailedFloat(x) => x,
                                        MissionSerdeError::FailedInt(x) => x,
                                        MissionSerdeError::NoFileEntry(x) => x,
                                        MissionSerdeError::Overlap(x) => x,
                                    };
                                    proof {
                                        assert(v@.value == ValueV::String(s2@));
                                        assert(spec_merge_entry(defv, k@, v@) == Err::<
                                            PropertyV,
                                            MergeErr,
                                        >(MergeErr::Cast(s2@, def_vtype@)));
                                        assert(spec_default_for(dpre, opre) == Err::<
                                            Seq<EntryV>,
                                            MergeErr,
                                        >(MergeErr::Cast(s2@, def_vtype@)));
                                    }
                                    return Err(PlaymissionError::WrongTypeCast(
                                        s2,
                                        def_vtype.to_owned(),
                                    ));
                                },
                            }
                        },
                        other_value => {
                            let same = same_vtype(&other_value, &res.entries[i].1.value);
                            if same {
                                other_value
                            } else {
                                proof {
                                    assert(!(v@.value is String));
                                    assert(spec_merge_entry(defv, k@, v@) == Err::<
                                        PropertyV,
                                        MergeErr,
                                    >(
                                        MergeErr::Mismatch(
                                            k@,
                                            spec_vtype_name(v@.value),
                                            def_vtype@,
                                        ),
                                    ));
                                    assert(spec_default_for(dpre, opre) == Err::<
                                        Seq<EntryV>,
                                        MergeErr,
                                    >(
                                        MergeErr::Mismatch(
                                            k@,
                                            spec_vtype_name(v@.value),
                                            def_vtype@,
                                        ),
                                    ));
                                }
                                return Err(PlaymissionError::MergedWrongType(
                                    k,
                                    other_value.vtype().to_owned(),
                                    def_vtype.to_owned(),
                                ));
                            }
                        },
                    };
                    let new_flags: Option<String> = match vf {
                        Some(f) => Some(f),
                        None => match res.entries[i].1.flags {
                            Some(ref g) => Some(g.clone()),
                            None => None,
                        },
                    };
                    res.entries.set(i, (k, Property { value: new_value, flags: new_flags }));
                    proof {
                        assert(res@ =~= dpre.update(i as int, (k@, res@[i as int].1)));
                        assert(spec_merge_entry(defv, k@, v@) == Ok::<PropertyV, MergeErr>(
                            res@[i as int].1,
                        ));
                        if unique_keys(dpre) {
                            lemma_update_value_preserves_unique(
                                dpre,
                                i as int,
                                (k@, res@[i as int].1),
                            );
                        }
                    }
                },
                None => {
                    res.entries.push((k, v));
                    proof {
                        assert(res@ =~= dpre.push((k@, v@)));
                        if unique_keys(dpre) {
                            lemma_push_fresh_preserves_unique(dpre, k@, v@);
                        }
                    }
                },
            }
        }
        proof {
            assert(rest@ =~= Seq::<EntryV>::empty());
        }
        Ok(res)
    }

    /// Structurally copies this collection.
    pub fn duplicate(&self) -> (r: Properties)
        ensures
            r@ == self@,
    {
        let n = self.entries.len();
        let mut entries: Vec<(String, Property)> = Vec::new();
        let mut i: usize = 0;
        while i < n
            invariant
                i <= n,
                n == self@.len(),
                entries@.len() == i,
                forall|j: int|
                    0 <= j < i ==> ((#[trigger] entries@[j]).0@, entries@[j].1@) == self@[j],
            decreases n - i,
        {
            entries.push((self.entries[i].0.clone(), self.entries[i].1.duplicate()));
            i = i + 1;
        }
        let r = Properties { entries };
        proof {
            assert(r@ =~= self@);
        }
        r
    }

    /// The edit layer's sole mutation primitive. An existing key keeps
    /// its declared type: the new raw string is coerced against it, the
    /// flags are preserved, and the prior value is returned for undo. A
    /// fresh key is inserted as a plain string with no flags. A failed
    /// coercion is an error and leaves the collection unchanged.
    pub fn replace_or_add_property_value(&mut self, k: &str, v: String) -> (r: Result<
        Option<Value>,
        PlaymissionError,
    >)
        ensures
            match r {
                Ok(old_value) => match spec_lookup(old(self)@, k@) {
                    Some(p) => {
                        &&& spec_value_new(v@, spec_vtype_name(p.value)) matches Some(w)
                        &&& final(self)@ == old(self)@.update(
                            spec_index_of(old(self)@, k@),
                            (k@, PropertyV { value: w, flags: p.flags }),
                        )
                        &&& old_value matches Some(ov) && ov@ == p.value
                    },
                    None => {
                        &&& final(self)@ == old(self)@.push(
                            (k@, PropertyV { value: ValueV::String(v@), flags: None }),
                        )
                        &&& old_value is None
                    },
                },
                Err(e) => {
                    &&& final(self)@ == old(self)@
                    &&& spec_lookup(old(self)@, k@) matches Some(p) && spec_value_new(
                        v@,
                        spec_vtype_name(p.value),
                    ) is None
                    &&& e matches PlaymissionError::WrongTypeCast(a, b) && a@ == v@ && b@
                        == spec_vtype_name((spec_lookup(old(self)@, k@)->Some_0).value)
                },
            },
            old(self).wf() ==> final(self).wf(),
    {
        match self.find_index(k) {
            Some(i) => {
                let ghost pre = self@;
                let vtype: &'static str = self.entries[i].1.value.vtype();
                match Value::new(v, vtype) {
                    Ok(w) => {
                        let key = self.entries[i].0.clone();
                        let flags: Option<String> = match self.entries[i].1.flags {
                            Some(ref g) => Some(g.clone()),
                            None => None,
                        };
                        let (_, old_prop) = self.entries.remove(i);
                        self.entries.insert(i, (key, Property { value: w, flags }));
                        proof {
                            assert(self@ =~= pre.update(i as int, (k@, self@[i as int].1)));
                            if unique_keys(pre) {
                                lemma_update_value_preserves_unique(
                                    pre,
                                    i as int,
                                    (k@, self@[i as int].1),
                                );
                            }
                        }
                        Ok(Some(old_prop.take_value()))
                    },
                    Err(e) => {
                        let s = match e {
                            MissionSerdeError::FailedBool(x) => x,
                            MissionSerdeError::FailedFloat(x) => x,
                            MissionSerdeError::FailedInt(x) => x,
                            MissionSerdeError::NoFileEntry(x) => x,
                            MissionSerdeError::Overlap(x) => x,
                        };
                        Err(PlaymissionError::WrongTypeCast(s, vtype.to_owned()))
                    },
                }
            },
            None => {
                let ghost pre = self@;
                let key: String = k.to_owned();
                self.entries.push((key, Property { value: Value::String(v), flags: None }));
                proof {
                    assert(self@ =~= pre.push((k@, self@[pre.len() as int].1)));
                    if unique_keys(pre) {
                        lemma_push_fresh_preserves_unique(pre, k@, self@[pre.len() as int].1);
                    }
                }
                Ok(None)
            },
        }
    }
}





// ---------------------------------------------------------------------
// The merge is idempotent
// ---------------------------------------------------------------------
/// The four type tags are pairwise distinct.
pub proof fn lemma_vtype_names_distinct()
    ensures
        "VTYPE_BOOL"@ != "VTYPE_FLOAT"@,
        "VTYPE_BOOL"@ != "VTYPE_INT"@,
        "VTYPE_BOOL"@ != "VTYPE_STRING"@,
        "VTYPE_FLOAT"@ != "VTYPE_INT"@,
        "VTYPE_FLOAT"@ != "VTYPE_STRING"@,
        "VTYPE_INT"@ != "VTYPE_STRING"@,
{
    reveal_strlit("VTYPE_BOOL");
    reveal_strlit("VTYPE_FLOAT");
    reveal_strlit("VTYPE_INT");
    reveal_strlit("VTYPE_STRING");
    assert("VTYPE_BOOL"@.len() == 10 && "VTYPE_FLOAT"@.len() == 11 && "VTYPE_INT"@.len() == 9
        && "VTYPE_STRING"@.len() == 12);
}

/// Coercing against a value's own type tag yields a value of that type.
pub proof fn lemma_value_new_keeps_vtype(s: Seq<char>, av: ValueV)
    requires
        spec_value_new(s, spec_vtype_name(av)) is Some,
    ensures
        spec_vtype_name(spec_value_new(s, spec_vtype_name(av))->Some_0) == spec_vtype_name(av),
{
    lemma_vtype_names_distinct();
}

/// Merging `b` onto `a` gives back `b` unchanged: `b` already has `a`'s
/// declared type, and `b`'s absent flags mean `a` had none either.
pub open spec fn absorbs(a: PropertyV, b: PropertyV) -> bool {
    &&& spec_vtype_name(a.value) == spec_vtype_name(b.value)
    &&& (b.flags is None ==> a.flags is None)
}

/// A successful merge result is absorbed by its own default.
pub proof fn lemma_merge_absorbs(a: PropertyV, k: Seq<char>, v: PropertyV)
    requires
        spec_merge_entry(a, k, v) is Ok,
    ensures
        absorbs(a, spec_merge_entry(a, k, v)->Ok_0),
{
    match v.value {
        ValueV::String(s) => {
            lemma_value_new_keeps_vtype(s, a.value);
        },
        _ => {},
    }
}

/// Merging an absorbed value changes nothing.
pub proof fn lemma_absorbs_merge(a: PropertyV, k: Seq<char>, b: PropertyV)
    requires
        absorbs(a, b),
    ensures
        spec_merge_entry(a, k, b) == Ok::<PropertyV, MergeErr>(b),
{
    lemma_vtype_names_distinct();
    match b.value {
        ValueV::String(s) => {
            assert(a.value is String);
            assert(spec_vtype_name(a.value) == "VTYPE_STRING"@);
            assert(spec_value_new(s, "VTYPE_STRING"@) == Some(ValueV::String(s)));
        },
        _ => {},
    }
}

/// A successful merge keeps every default's position and key, only
/// absorbable values stand there afterwards, appended entries follow,
/// and unique keys stay unique.
pub proof fn lemma_default_for_shape(d: Seq<EntryV>, o: Seq<EntryV>)
    requires
        unique_keys(d),
        spec_default_for(d, o) is Ok,
    ensures
        spec_default_for(d, o)->Ok_0.len() >= d.len(),
        unique_keys(spec_default_for(d, o)->Ok_0),
        forall|i: int|
            0 <= i < d.len() ==> (#[trigger] spec_default_for(d, o)->Ok_0[i]).0 == d[i].0
                && absorbs(d[i].1, spec_default_for(d, o)->Ok_0[i].1),
    decreases o.len(),
{
    let r = spec_default_for(d, o)->Ok_0;
    if o.len() == 0 {
    } else {
        let k = o[0].0;
        let v = o[0].1;
        lemma_index_of_in_range(d, k);
        if spec_has_key(d, k) {
            let idx = spec_index_of(d, k);
            let m = spec_merge_entry(d[idx].1, k, v)->Ok_0;
            let d2 = d.update(idx, (k, m));
            lemma_update_value_preserves_unique(d, idx, (k, m));
            lemma_merge_absorbs(d[idx].1, k, v);
            lemma_default_for_shape(d2, o.skip(1));
            assert forall|i: int| 0 <= i < d.len() implies (#[trigger] r[i]).0 == d[i].0 && absorbs(
                d[i].1,
                r[i].1,
            ) by {
                assert(d2[i].0 == d[i].0);
                assert(absorbs(d[i].1, d2[i].1));
                assert(absorbs(d2[i].1, r[i].1));
            }
        } else {
            let d2 = d.push((k, v));
            lemma_push_fresh_preserves_unique(d, k, v);
            lemma_default_for_shape(d2, o.skip(1));
            assert forall|i: int| 0 <= i < d.len() implies (#[trigger] r[i]).0 == d[i].0 && absorbs(
                d[i].1,
                r[i].1,
            ) by {
                assert(d2[i] == d[i]);
                assert(absorbs(d[i].1, d2[i].1));
            }
        }
    }
}

/// The merge state after re-playing `i` entries of `r` over `d`.
pub open spec fn merge_state(d: Seq<EntryV>, r: Seq<EntryV>, i: int) -> Seq<EntryV> {
    if i <= d.len() {
        r.take(i) + d.skip(i)
    } else {
        r.take(i)
    }
}

/// Re-playing the tail of a stable overlay leaves it unchanged.
pub proof fn lemma_default_for_stable_from(d: Seq<EntryV>, r: Seq<EntryV>, i: int)
    requires
        unique_keys(d),
        unique_keys(r),
        r.len() >= d.len(),
        0 <= i <= r.len(),
        forall|j: int|
            0 <= j < d.len() ==> (#[trigger] r[j]).0 == d[j].0 && absorbs(d[j].1, r[j].1),
    ensures
        spec_default_for(merge_state(d, r, i), r.skip(i)) == Ok::<Seq<EntryV>, MergeErr>(r),
    decreases r.len() - i,
{
    let acc = merge_state(d, r, i);
    if i == r.len() {
        assert(r.skip(i).len() == 0);
        assert(acc =~= r);
    } else {
        let k = r[i].0;
        let v = r[i].1;
        assert(r.skip(i)[0] == r[i]);
        assert(r.skip(i).skip(1) =~= r.skip(i + 1));
        if i < d.len() {
            assert(acc[i].0 == d[i].0 && d[i].0 == k);
            assert forall|j: int| 0 <= j < i implies (#[trigger] acc[j].0) != k by {
                assert(acc[j] == r[j]);
            }
            lemma_index_of_first(acc, k, i);
            lemma_absorbs_merge(d[i].1, k, v);
            assert(acc[i].1 == d[i].1);
            assert(spec_merge_entry(acc[i].1, k, v) == Ok::<PropertyV, MergeErr>(v));
            let acc2 = acc.update(i, (k, v));
            assert(acc2 =~= merge_state(d, r, i + 1));
            lemma_default_for_stable_from(d, r, i + 1);
        } else {
            assert(acc =~= r.take(i));
            assert forall|j: int| 0 <= j < acc.len() implies (#[trigger] acc[j].0) != k by {
                assert(acc[j] == r[j]);
            }
            lemma_index_of_none(acc, k);
            let acc2 = acc.push((k, v));
            assert(acc2 =~= merge_state(d, r, i + 1));
            lemma_default_for_stable_from(d, r, i + 1);
        }
    }
}

/// Law: the directional default merge is idempotent. Whenever merging an
/// overlay onto a template succeeds, merging the result onto the same
/// template again succeeds and changes nothing.
pub proof fn lemma_default_for_idempotent(d: Seq<EntryV>, o: Seq<EntryV>)
    requires
        unique_keys(d),
        spec_default_for(d, o) is Ok,
    ensures
        spec_default_for(d, spec_default_for(d, o)->Ok_0) == spec_default_for(d, o),
{
    let r = spec_default_for(d, o)->Ok_0;
    lemma_default_for_shape(d, o);
    lemma_default_for_stable_from(d, r, 0);
    assert(merge_state(d, r, 0) =~= d);
    assert(r.skip(0) =~= r);
}

/// Every value in an entry list is one the engine can have produced.
pub open spec fn entries_values_wf(es: Seq<EntryV>) -> bool {
    forall|i: int| 0 <= i < es.len() ==> value_wf((#[trigger] es[i]).1.value)
}

/// A successful merge of lists of such values yields such values.
pub proof fn lemma_default_for_values_wf(d: Seq<EntryV>, o: Seq<EntryV>)
    requires
        entries_values_wf(d),
        entries_values_wf(o),
        spec_default_for(d, o) is Ok,
    ensures
        entries_values_wf(spec_default_for(d, o)->Ok_0),
    decreases o.len(),
{
    if o.len() > 0 {
        let k = o[0].0;
        let v = o[0].1;
        assert(value_wf(v.value)) by {
            assert(o[0] == o[0]);
        }
        assert(entries_values_wf(o.skip(1))) by {
            assert(forall|i: int| 0 <= i < o.len() - 1 ==> (#[trigger] o.skip(1)[i]) == o[i + 1]);
        }
        if spec_has_key(d, k) {
            let idx = spec_index_of(d, k);
            lemma_index_of_in_range(d, k);
            match spec_merge_entry(d[idx].1, k, v) {
                Ok(m) => {
                    assert(value_wf(m.value)) by {
                        match v.value {
                            ValueV::String(s) => {
                                lemma_value_new_wf(s, spec_vtype_name(d[idx].1.value));
                            },
                            _ => {},
                        }
                    }
                    let d2 = d.update(idx, (k, m));
                    assert(entries_values_wf(d2)) by {
                        assert(forall|i: int|
                            0 <= i < d2.len() ==> (#[trigger] d2[i]) == if i == idx {
                                (k, m)
                            } else {
                                d[i]
                            });
                    }
                    lemma_default_for_values_wf(d2, o.skip(1));
                },
                Err(_) => {},
            }
        } else {
            let d2 = d.push((k, v));
            assert(entries_values_wf(d2)) by {
                assert(forall|i: int|
                    0 <= i < d2.len() ==> (#[trigger] d2[i]) == if i < d.len() {
                        d[i]
                    } else {
                        (k, v)
                    });
            }
            lemma_default_for_values_wf(d2, o.skip(1));
        }
    }
}

/// Compares the type tags of two values.
pub fn same_vtype(a: &Value, b: &Value) -> (r: bool)
    ensures
        r == (spec_vtype_name(a@) == spec_vtype_name(b@)),
{
    proof {
        reveal_strlit("VTYPE_BOOL");
        reveal_strlit("VTYPE_FLOAT");
        reveal_strlit("VTYPE_INT");
        reveal_strlit("VTYPE_STRING");
    }
    match (a, b) {
        (Value::Bool(_), Value::Bool(_)) => true,
        (Value::Float(_), Value::Float(_)) => true,
        (Value::Int(_), Value::Int(_)) => true,
        (Value::String(_), Value::String(_)) => true,
        _ => {
            proof {
                assert("VTYPE_BOOL"@.len() == 10 && "VTYPE_FLOAT"@.len() == 11 && "VTYPE_INT"@.len()
                    == 9 && "VTYPE_STRING"@.len() == 12);
            }
            false
        },
    }
}

} // verus!
