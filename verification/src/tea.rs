//! The event-sourced edit controller: a live object set and mission
//! container behind one mutation entry point, with bounded undo and redo
//! history. Every mutating event captures its inverse; undoing replays
//! the inverse and queues the forward step for redo.
use vstd::prelude::*;
use crate::assoc::{spec_index_of, spec_lookup, spec_has_key};
use crate::error::PlaymissionError;
use crate::filemap::FileEntryV;
use crate::mission::{MissionObject, MissionObjectV, mission_wf, spec_serialize, spec_to_objects,
    objs_view, objs_core_view, to_objects};
use crate::properties::{EntryV, PropertyV, entries_values_wf};
use crate::structs::{Object, ObjectV, obj_wf};
use crate::value::{Value, ValueV, value_wf, spec_value_new, spec_value_text, spec_vtype_name};

verus! {

/// One event against the live set.
#[derive(Debug, Clone, PartialEq)]
pub enum Event {
    Save,
    Keypress { code: String, shift: bool },
    UpdateProperty { uuid: u128, key: String, value: String },
    UpdateDatafile { uuid: u128, key: String, value: String },
    UpdateFile { uuid: u128, key: String, buffer: Vec<u8> },
    Undo,
    Redo,
}

/// Model of an event.
pub enum EventV {
    Save,
    Keypress(Seq<char>, bool),
    UpdateProperty(int, Seq<char>, Seq<char>),
    UpdateDatafile(int, Seq<char>, Seq<char>),
    UpdateFile(int, Seq<char>, Seq<u8>),
    Undo,
    Redo,
}

impl View for Event {
    type V = EventV;

    open spec fn view(&self) -> EventV {
        match self {
            Event::Save => EventV::Save,
            Event::Keypress { code, shift } => EventV::Keypress(code@, *shift),
            Event::UpdateProperty { uuid, key, value } => EventV::UpdateProperty(
                *uuid as int,
                key@,
                value@,
            ),
            Event::UpdateDatafile { uuid, key, value } => EventV::UpdateDatafile(
                *uuid as int,
                key@,
                value@,
            ),
            Event::UpdateFile { uuid, key, buffer } => EventV::UpdateFile(
                *uuid as int,
                key@,
                buffer@,
            ),
            Event::Undo => EventV::Undo,
            Event::Redo => EventV::Redo,
        }
    }
}

/// Errors of the edit layer.
#[derive(Debug, Clone, PartialEq)]
pub enum TeaError {
    /// No file on the object under the associated key.
    NoFile,
    /// Nothing to redo.
    NoRedo,
    /// Nothing to undo.
    NoUndo,
    /// No object with this identifier.
    NoUuid(u128),
    /// A format-engine failure.
    Playmission(PlaymissionError),
}

/// Model of the controller state.
pub struct HandlerV {
    pub mission: MissionObjectV,
    pub objects: Seq<ObjectV>,
    pub status: Option<Seq<char>>,
    pub undo: Seq<EventV>,
    pub redo: Seq<EventV>,
}

/// The edit controller.
#[derive(Debug)]
pub struct TeaHandler {
    missionobject: MissionObject,
    objects: Vec<Object>,
    status: Option<String>,
    undo_buffer: Vec<Event>,
    redo_buffer: Vec<Event>,
}

/// Models of an event list.
pub open spec fn events_view(v: Seq<Event>) -> Seq<EventV> {
    Seq::new(v.len(), |i: int| v[i]@)
}

impl View for TeaHandler {
    type V = HandlerV;

    closed spec fn view(&self) -> HandlerV {
        HandlerV {
            mission: self.missionobject@,
            objects: objs_view(self.objects@),
            status: match self.status {
                Some(ref s) => Some(s@),
                None => None,
            },
            undo: events_view(self.undo_buffer@),
            redo: events_view(self.redo_buffer@),
        }
    }
}

// ---------------------------------------------------------------------
// The state machine, mathematically
// ---------------------------------------------------------------------
/// The history bound: each buffer keeps at most this many entries, the
/// oldest dropped on overflow.
pub open spec fn history_cap() -> int {
    200
}

/// An event that mutates one field of one object.
pub open spec fn is_update_event(e: EventV) -> bool {
    e is UpdateProperty || e is UpdateDatafile || e is UpdateFile
}

/// Pushes onto a bounded history, dropping the oldest entry on overflow.
pub open spec fn cap_push(buf: Seq<EventV>, e: EventV) -> Seq<EventV> {
    if buf.len() + 1 > history_cap() {
        buf.push(e).skip(1)
    } else {
        buf.push(e)
    }
}

/// Index of the first object with the given identifier, or -1.
pub open spec fn obj_index(objs: Seq<ObjectV>, id: int) -> int
    decreases objs.len(),
{
    if objs.len() == 0 {
        -1
    } else if objs[0].uuid == id {
        0
    } else {
        let r = obj_index(objs.skip(1), id);
        if r < 0 {
            -1
        } else {
            r + 1
        }
    }
}

/// One key replaced or inserted in an entry list, with the prior
/// property, exactly as the mutation primitive does it.
pub open spec fn spec_entries_update(es: Seq<EntryV>, k: Seq<char>, v: Seq<char>) -> Option<
    (Seq<EntryV>, Option<PropertyV>),
> {
    match spec_lookup(es, k) {
        Some(p) => match spec_value_new(v, spec_vtype_name(p.value)) {
            Some(w) => Some(
                (
                    es.update(spec_index_of(es, k), (k, PropertyV { value: w, flags: p.flags })),
                    Some(p),
                ),
            ),
            None => None,
        },
        None => Some(
            (es.push((k, PropertyV { value: ValueV::String(v), flags: None })), None),
        ),
    }
}

/// One mutating event applied to the live set: the new set and the
/// inverse event, where a prior value existed to restore.
pub open spec fn spec_apply_update(objs: Seq<ObjectV>, ev: EventV) -> Option<
    (Seq<ObjectV>, Option<EventV>),
> {
    match ev {
        EventV::UpdateProperty(id, k, v) => {
            let i = obj_index(objs, id);
            if i < 0 {
                None
            } else {
                let o = objs[i];
                match spec_entries_update(o.properties, k, v) {
                    Some((es, prior)) => Some(
                        (
                            objs.update(i, ObjectV { properties: es, ..o }),
                            match prior {
                                Some(p) => Some(
                                    EventV::UpdateProperty(id, k, spec_value_text(p.value)),
                                ),
                                None => None,
                            },
                        ),
                    ),
                    None => None,
                }
            }
        },
        EventV::UpdateDatafile(id, k, v) => {
            let i = obj_index(objs, id);
            if i < 0 {
                None
            } else {
                let o = objs[i];
                match spec_entries_update(o.datafile, k, v) {
                    Some((es, prior)) => Some(
                        (
                            objs.update(i, ObjectV { datafile: es, ..o }),
                            match prior {
                                Some(p) => Some(
                                    EventV::UpdateDatafile(id, k, spec_value_text(p.value)),
                                ),
                                None => None,
                            },
                        ),
                    ),
                    None => None,
                }
            }
        },
        EventV::UpdateFile(id, k, b) => {
            let i = obj_index(objs, id);
            if i < 0 {
                None
            } else {
                let o = objs[i];
                match spec_lookup(o.files, k) {
                    Some(old_buf) => Some(
                        (
                            objs.update(
                                i,
                                ObjectV {
                                    files: o.files.update(spec_index_of(o.files, k), (k, b)),
                                    ..o
                                },
                            ),
                            Some(EventV::UpdateFile(id, k, old_buf)),
                        ),
                    ),
                    None => Some(
                        (objs.update(i, ObjectV { files: o.files.push((k, b)), ..o }), None),
                    ),
                }
            }
        },
        _ => None,
    }
}

/// The result of one dispatch step.
pub struct StepV {
    pub mission: MissionObjectV,
    pub objects: Seq<ObjectV>,
    pub undo: Seq<EventV>,
    pub redo: Seq<EventV>,
    pub failed: bool,
    pub out: Option<Seq<u8>>,
}

/// The unchanged state as a step.
pub open spec fn step_same(h: HandlerV, failed: bool) -> StepV {
    StepV {
        mission: h.mission,
        objects: h.objects,
        undo: h.undo,
        redo: h.redo,
        failed: failed,
        out: None,
    }
}

/// One mutating event dispatched: on success the inverse, if any, joins
/// the undo history and the redo history is cleared.
pub open spec fn spec_dispatch_update(h: HandlerV, ev: EventV) -> StepV {
    match spec_apply_update(h.objects, ev) {
        Some((objs, inv)) => StepV {
            mission: h.mission,
            objects: objs,
            undo: match inv {
                Some(e) => cap_push(h.undo, e),
                None => h.undo,
            },
            redo: Seq::empty(),
            failed: false,
            out: None,
        },
        None => step_same(h, true),
    }
}

/// Undo dispatched: the newest undo entry is removed and replayed; its
/// own inverse joins the redo history, which this move does not clear.
pub open spec fn spec_undo(h: HandlerV) -> StepV {
    if h.undo.len() == 0 {
        step_same(h, true)
    } else {
        let e = h.undo.last();
        let h2 = HandlerV { undo: h.undo.drop_last(), ..h };
        match spec_apply_update(h.objects, e) {
            Some((objs, inv)) => StepV {
                mission: h.mission,
                objects: objs,
                undo: h2.undo,
                redo: match inv {
                    Some(ie) => cap_push(h.redo, ie),
                    None => h.redo,
                },
                failed: false,
                out: None,
            },
            None => step_same(h2, true),
        }
    }
}

/// Redo dispatched, symmetrically.
pub open spec fn spec_redo(h: HandlerV) -> StepV {
    if h.redo.len() == 0 {
        step_same(h, true)
    } else {
        let e = h.redo.last();
        let h2 = HandlerV { redo: h.redo.drop_last(), ..h };
        match spec_apply_update(h.objects, e) {
            Some((objs, inv)) => StepV {
                mission: h.mission,
                objects: objs,
                undo: match inv {
                    Some(ie) => cap_push(h.undo, ie),
                    None => h.undo,
                },
                redo: h2.redo,
                failed: false,
                out: None,
            },
            None => step_same(h2, true),
        }
    }
}

/// How deep an event can recurse: the key chord decodes to another event.
pub open spec fn ev_rank(ev: EventV) -> nat {
    if ev is Keypress {
        1
    } else {
        0
    }
}

/// One event dispatched against the controller state: the transition of
/// the mission, the live set, both histories, whether a failure was
/// reported, and any saved archive bytes.
pub open spec fn spec_dispatch(h: HandlerV, ev: EventV) -> StepV
    decreases ev_rank(ev),
{
    match ev {
        EventV::Save => match spec_serialize(h.mission, h.objects) {
            Some(b) => StepV { out: Some(b), ..step_same(h, false) },
            None => step_same(h, true),
        },
        EventV::Keypress(code, shift) => if code == "KeyZ"@ {
            if shift {
                spec_dispatch(h, EventV::Redo)
            } else {
                spec_dispatch(h, EventV::Undo)
            }
        } else {
            step_same(h, false)
        },
        EventV::Undo => spec_undo(h),
        EventV::Redo => spec_redo(h),
        _ => spec_dispatch_update(h, ev),
    }
}

pub proof fn lemma_obj_index_first(objs: Seq<ObjectV>, id: int, i: int)
    requires
        0 <= i < objs.len(),
        objs[i].uuid == id,
        forall|j: int| 0 <= j < i ==> (#[trigger] objs[j]).uuid != id,
    ensures
        obj_index(objs, id) == i,
    decreases i,
{
    if i > 0 {
        assert(objs.skip(1)[i - 1] == objs[i]);
        assert(forall|j: int| 0 <= j < i - 1 ==> (#[trigger] objs.skip(1)[j]) == objs[j + 1]);
        lemma_obj_index_first(objs.skip(1), id, i - 1);
    }
}

pub proof fn lemma_obj_index_none(objs: Seq<ObjectV>, id: int)
    requires
        forall|j: int| 0 <= j < objs.len() ==> (#[trigger] objs[j]).uuid != id,
    ensures
        obj_index(objs, id) == -1,
    decreases objs.len(),
{
    if objs.len() > 0 {
        assert(forall|j: int| 0 <= j < objs.len() - 1 ==> (#[trigger] objs.skip(1)[j]) == objs[j
            + 1]);
        lemma_obj_index_none(objs.skip(1), id);
    }
}

// ---------------------------------------------------------------------
// The controller, executably
// ---------------------------------------------------------------------
impl TeaHandler {
    /// Imports a mission from archive bytes: the whole load pipeline with
    /// empty histories and no status.
    pub fn from_buffer(data: Vec<u8>) -> (r: Result<TeaHandler, TeaError>)
        ensures
            match r {
                Ok(h) => {
                    &&& spec_to_objects(data@) matches Some(t) && t == (
                    Seq::new(h@.objects.len(), |i: int| crate::structs::obj_core(h@.objects[i])),
                    h@.mission)
                    &&& h@.status is None
                    &&& h@.undo == Seq::<EventV>::empty()
                    &&& h@.redo == Seq::<EventV>::empty()
                    &&& mission_wf(h@.mission)
                    &&& forall|i: int| 0 <= i < h@.objects.len() ==> obj_wf(#[trigger] h@.objects[i])
                    &&& objects_values_wf(h@.objects)
                },
                Err(_) => spec_to_objects(data@) is None,
            },
    {
        let (objects, missionobject) = match to_objects(&data) {
            Ok(t) => t,
            Err(e) => {
                return Err(TeaError::Playmission(e));
            },
        };
        let h = TeaHandler {
            missionobject,
            objects,
            status: None,
            undo_buffer: Vec::new(),
            redo_buffer: Vec::new(),
        };
        proof {
            assert(events_view(h.undo_buffer@) =~= Seq::<EventV>::empty());
            assert(events_view(h.redo_buffer@) =~= Seq::<EventV>::empty());
            assert(Seq::new(h@.objects.len(), |i: int| crate::structs::obj_core(h@.objects[i]))
                =~= objs_core_view(h.objects@));
            crate::mission::lemma_to_objects_values_wf(data@);
            assert forall|i: int| 0 <= i < h@.objects.len() implies entries_values_wf(
                (#[trigger] h@.objects[i]).properties,
            ) && entries_values_wf(h@.objects[i].datafile) by {
                let cores = spec_to_objects(data@)->Some_0.0;
                assert(cores[i] == crate::structs::obj_core(h@.objects[i]));
            }
        }
        Ok(h)
    }

    /// Index of the first live object with the given identifier.
    fn find_object_index(&self, uuid: u128) -> (r: Option<usize>)
        ensures
            match r {
                Some(i) => obj_index(self@.objects, uuid as int) == i as int && i
                    < self@.objects.len(),
                None => obj_index(self@.objects, uuid as int) < 0,
            },
    {
        let n = self.objects.len();
        let mut i: usize = 0;
        while i < n
            invariant
                i <= n,
                n == self@.objects.len(),
                forall|j: int| 0 <= j < i ==> (#[trigger] self@.objects[j]).uuid != uuid as int,
            decreases n - i,
        {
            if self.objects[i].uuid() == uuid {
                proof {
                    assert(self@.objects[i as int] == self.objects@[i as int]@);
                    lemma_obj_index_first(self@.objects, uuid as int, i as int);
                }
                return Some(i);
            }
            proof {
                assert(self@.objects[i as int] == self.objects@[i as int]@);
            }
            i = i + 1;
        }
        proof {
            lemma_obj_index_none(self@.objects, uuid as int);
        }
        None
    }

    /// Applies one mutating event to the live set, returning the inverse
    /// event where a prior value existed.
    fn apply_update(&mut self, event: Event) -> (r: Result<Option<Event>, TeaError>)
        requires
            is_update_event(event@),
        ensures
            final(self)@.mission == old(self)@.mission && final(self)@.status == old(self)@.status
                && final(self)@.undo == old(self)@.undo && final(self)@.redo == old(self)@.redo,
            match r {
                Ok(inv) => {
                    &&& spec_apply_update(old(self)@.objects, event@) matches Some(t)
                        && final(self)@.objects == t.0 && (match t.1 {
                        Some(iv) => inv matches Some(x) && x@ == iv,
                        None => inv is None,
                    })
                },
                Err(_) => {
                    &&& spec_apply_update(old(self)@.objects, event@) is None
                    &&& final(self)@.objects == old(self)@.objects
                },
            },
    {
        let ghost objs0 = self@.objects;
        match event {
            Event::UpdateProperty { uuid, key, value } => {
                let i = match self.find_object_index(uuid) {
                    Some(i) => i,
                    None => {
                        return Err(TeaError::NoUuid(uuid));
                    },
                };
                let mut o = self.objects.remove(i);
                proof {
                    assert(objs0[i as int] == o@);
                }
                let ghost opre = o@;
                let res = o.set_property(key.as_str(), value);
                let ghost opost = o@;
                self.objects.insert(i, o);
                proof {
                    assert(objs_view(self.objects@) =~= objs0.update(i as int, opost));
                    assert(opost.datafile == opre.datafile && opost.files == opre.files
                        && opost.uuid == opre.uuid && opost.kind == opre.kind
                        && opost.datafile_name == opre.datafile_name);
                }
                match res {
                    Ok(Some(old_value)) => {
                        proof {
                            assert(opost == ObjectV { properties: opost.properties, ..opre });
                        }
                        Ok(Some(Event::UpdateProperty { uuid, key, value: old_value.to_text() }))
                    },
                    Ok(None) => {
                        proof {
                            assert(opost == ObjectV { properties: opost.properties, ..opre });
                        }
                        Ok(None)
                    },
                    Err(e) => {
                        proof {
                            assert(opost == opre);
                            assert(objs0.update(i as int, opre) =~= objs0);
                        }
                        Err(TeaError::Playmission(e))
                    },
                }
            },
            Event::UpdateDatafile { uuid, key, value } => {
                let i = match self.find_object_index(uuid) {
                    Some(i) => i,
                    None => {
                        return Err(TeaError::NoUuid(uuid));
                    },
                };
                let mut o = self.objects.remove(i);
                proof {
                    assert(objs0[i as int] == o@);
                }
                let ghost opre = o@;
                let res = o.set_datafile(key.as_str(), value);
                let ghost opost = o@;
                self.objects.insert(i, o);
                proof {
                    assert(objs_view(self.objects@) =~= objs0.update(i as int, opost));
                }
                match res {
                    Ok(Some(old_value)) => {
                        proof {
                            assert(opost == ObjectV { datafile: opost.datafile, ..opre });
                        }
                        Ok(Some(Event::UpdateDatafile { uuid, key, value: old_value.to_text() }))
                    },
                    Ok(None) => {
                        proof {
                            assert(opost == ObjectV { datafile: opost.datafile, ..opre });
                        }
                        Ok(None)
                    },
                    Err(e) => {
                        proof {
                            assert(opost == opre);
                            assert(objs0.update(i as int, opre) =~= objs0);
                        }
                        Err(TeaError::Playmission(e))
                    },
                }
            },
            Event::UpdateFile { uuid, key, buffer } => {
                let i = match self.find_object_index(uuid) {
                    Some(i) => i,
                    None => {
                        return Err(TeaError::NoUuid(uuid));
                    },
                };
                let mut o = self.objects.remove(i);
                proof {
                    assert(objs0[i as int] == o@);
                }
                let ghost opre = o@;
                let key2 = key.clone();
                let old_buf = o.set_file(key, buffer);
                let ghost opost = o@;
                self.objects.insert(i, o);
                proof {
                    assert(objs_view(self.objects@) =~= objs0.update(i as int, opost));
                    assert(opost == ObjectV { files: opost.files, ..opre });
                }
                match old_buf {
                    Some(b) => Ok(Some(Event::UpdateFile { uuid, key: key2, buffer: b })),
                    None => Ok(None),
                }
            },
            _ => {
                proof {
                    assert(false);
                }
                Err(TeaError::NoFile)
            },
        }
    }

    /// Pushes one inverse onto the undo history, dropping the oldest
    /// entry past the bound.
    fn push_undo(&mut self, e: Event)
        ensures
            final(self)@ == (HandlerV { undo: cap_push(old(self)@.undo, e@), ..old(self)@ }),
    {
        let ghost pre = self@.undo;
        self.undo_buffer.push(e);
        proof {
            assert(events_view(self.undo_buffer@) =~= pre.push(e@));
        }
        if self.undo_buffer.len() > 200 {
            let ghost mid = events_view(self.undo_buffer@);
            let _ = self.undo_buffer.remove(0);
            proof {
                assert(events_view(self.undo_buffer@) =~= mid.skip(1));
            }
        }
    }

    /// Pushes one forward step onto the redo history, dropping the oldest
    /// entry past the bound.
    fn push_redo(&mut self, e: Event)
        ensures
            final(self)@ == (HandlerV { redo: cap_push(old(self)@.redo, e@), ..old(self)@ }),
    {
        let ghost pre = self@.redo;
        self.redo_buffer.push(e);
        proof {
            assert(events_view(self.redo_buffer@) =~= pre.push(e@));
        }
        if self.redo_buffer.len() > 200 {
            let ghost mid = events_view(self.redo_buffer@);
            let _ = self.redo_buffer.remove(0);
            proof {
                assert(events_view(self.redo_buffer@) =~= mid.skip(1));
            }
        }
    }

    /// One mutating event dispatched: capture the inverse, clear redo.
    fn update_step(&mut self, event: Event)
        requires
            is_update_event(event@),
            old(self)@.status is None,
        ensures
            step_matches(final(self)@, spec_dispatch_update(old(self)@, event@)),
    {
        match self.apply_update(event) {
            Ok(Some(inv)) => {
                self.push_undo(inv);
                self.redo_buffer.clear();
                proof {
                    assert(events_view(self.redo_buffer@) =~= Seq::<EventV>::empty());
                }
            },
            Ok(None) => {
                self.redo_buffer.clear();
                proof {
                    assert(events_view(self.redo_buffer@) =~= Seq::<EventV>::empty());
                }
            },
            Err(e) => {
                self.status = Some(error_text(&e));
            },
        }
    }

    /// Undo dispatched: pop the newest inverse and replay it.
    fn undo_step(&mut self)
        requires
            old(self)@.status is None,
        ensures
            step_matches(final(self)@, spec_undo(old(self)@)),
    {
        let ghost pre = self@.undo;
        let e = match self.undo_buffer.pop() {
            Some(e) => e,
            None => {
                proof {
                    assert(pre.len() == 0);
                }
                self.status = Some(String::from_str("nothing to undo"));
                return ;
            },
        };
        proof {
            assert(events_view(self.undo_buffer@) =~= pre.drop_last());
            assert(e@ == pre.last());
        }
        let is_upd = match &e {
            Event::UpdateProperty { .. } => true,
            Event::UpdateDatafile { .. } => true,
            Event::UpdateFile { .. } => true,
            _ => false,
        };
        if !is_upd {
            self.status = Some(String::from_str("nothing to undo"));
            return ;
        }
        match self.apply_update(e) {
            Ok(Some(inv)) => {
                self.push_redo(inv);
            },
            Ok(None) => {},
            Err(err) => {
                self.status = Some(error_text(&err));
            },
        }
    }

    /// Redo dispatched: pop the newest forward step and replay it.
    fn redo_step(&mut self)
        requires
            old(self)@.status is None,
        ensures
            step_matches(final(self)@, spec_redo(old(self)@)),
    {
        let ghost pre = self@.redo;
        let e = match self.redo_buffer.pop() {
            Some(e) => e,
            None => {
                proof {
                    assert(pre.len() == 0);
                }
                self.status = Some(String::from_str("nothing to redo"));
                return ;
            },
        };
        proof {
            assert(events_view(self.redo_buffer@) =~= pre.drop_last());
            assert(e@ == pre.last());
        }
        let is_upd = match &e {
            Event::UpdateProperty { .. } => true,
            Event::UpdateDatafile { .. } => true,
            Event::UpdateFile { .. } => true,
            _ => false,
        };
        if !is_upd {
            self.status = Some(String::from_str("nothing to redo"));
            return ;
        }
        match self.apply_update(e) {
            Ok(Some(inv)) => {
                self.push_undo(inv);
            },
            Ok(None) => {},
            Err(err) => {
                self.status = Some(error_text(&err));
            },
        }
    }

    /// The single mutation entry point. Dispatches one event: clears the
    /// prior status, runs the event against the live set, and manages the
    /// two histories; a successful save hands back the new archive bytes.
    /// Failures set the status and never corrupt the live set.
    pub fn event(&mut self, event: Event) -> (out: Option<Vec<u8>>)
        ensures
            step_matches(final(self)@, spec_dispatch(old(self)@, event@)),
            match spec_dispatch(old(self)@, event@).out {
                Some(b) => out matches Some(x) && x@ == b,
                None => out is None,
            },
    {
        self.status = None;
        proof {
            reveal_with_fuel(spec_dispatch, 3);
            lemma_dispatch_status_blind(old(self)@, self@, event@);
        }
        match event {
            Event::Save => {
                let n = self.objects.len();
                let mut clones: Vec<Object> = Vec::new();
                let mut i: usize = 0;
                while i < n
                    invariant
                        i <= n,
                        n == self.objects@.len(),
                        clones@.len() == i,
                        forall|j: int| 0 <= j < i ==> (#[trigger] clones@[j])@ == self.objects@[j]@,
                    decreases n - i,
                {
                    clones.push(self.objects[i].duplicate());
                    i = i + 1;
                }
                proof {
                    assert(objs_view(clones@) =~= self@.objects);
                }
                let mo = self.missionobject.duplicate();
                match mo.serialize(clones) {
                    Ok(b) => Some(b),
                    Err(e) => {
                        self.status = Some(error_text(&TeaError::Playmission(e)));
                        None
                    },
                }
            },
            Event::Keypress { code, shift } => {
                let is_z = code == String::from_str("KeyZ");
                if is_z {
                    if shift {
                        self.redo_step();
                    } else {
                        self.undo_step();
                    }
                }
                None
            },
            Event::Undo => {
                self.undo_step();
                None
            },
            Event::Redo => {
                self.redo_step();
                None
            },
            _ => {
                self.update_step(event);
                None
            },
        }
    }

    // -----------------------------------------------------------------
    // Read accessors
    // -----------------------------------------------------------------
    /// The identifiers and display names of the live objects, in order.
    pub fn display_objects(&self) -> (r: Vec<(u128, String)>)
        ensures
            r@.len() == self@.objects.len(),
            forall|i: int|
                0 <= i < r@.len() ==> (#[trigger] r@[i]).0 as int == self@.objects[i].uuid,
    {
        let n = self.objects.len();
        let mut out: Vec<(u128, String)> = Vec::new();
        let mut i: usize = 0;
        while i < n
            invariant
                i <= n,
                n == self.objects@.len(),
                out@.len() == i,
                forall|j: int|
                    0 <= j < i ==> (#[trigger] out@[j]).0 as int == objs_view(self.objects@)[j].uuid,
            decreases n - i,
        {
            let name = match self.objects[i].name() {
                Some(s) => s,
                None => String::from_str("{unnamed object}"),
            };
            out.push((self.objects[i].uuid(), name));
            i = i + 1;
        }
        out
    }

    /// Borrows the object of an identifier.
    pub fn get_object(&self, uuid: u128) -> (r: Result<&Object, TeaError>)
        ensures
            match r {
                Ok(o) => obj_index(self@.objects, uuid as int) >= 0 && o@ == self@.objects[obj_index(
                    self@.objects,
                    uuid as int,
                )],
                Err(e) => {
                    &&& obj_index(self@.objects, uuid as int) < 0
                    &&& e matches TeaError::NoUuid(u) && u == uuid
                },
            },
    {
        match self.find_object_index(uuid) {
            Some(i) => {
                proof {
                    assert(self@.objects[i as int] == self.objects@[i as int]@);
                }
                Ok(&self.objects[i])
            },
            None => Err(TeaError::NoUuid(uuid)),
        }
    }

    /// The property names and values of an object, in order.
    pub fn display_properties(&self, uuid: u128) -> (r: Result<Vec<(String, Value)>, TeaError>)
        ensures
            match r {
                Ok(v) => {
                    &&& obj_index(self@.objects, uuid as int) >= 0
                    &&& v@.len() == self@.objects[obj_index(self@.objects, uuid as int)].properties.len()
                    &&& forall|i: int|
                        0 <= i < v@.len() ==> ((#[trigger] v@[i]).0@, v@[i].1@) == (
                        self@.objects[obj_index(self@.objects, uuid as int)].properties[i].0,
                        self@.objects[obj_index(self@.objects, uuid as int)].properties[i].1.value)
                },
                Err(_) => obj_index(self@.objects, uuid as int) < 0,
            },
    {
        let o = self.get_object(uuid)?;
        let props = o.properties();
        let n = props.len();
        let mut out: Vec<(String, Value)> = Vec::new();
        let mut i: usize = 0;
        while i < n
            invariant
                i <= n,
                n == props@.len(),
                out@.len() == i,
                forall|j: int|
                    0 <= j < i ==> ((#[trigger] out@[j]).0@, out@[j].1@) == (
                    props@[j].0, props@[j].1.value),
            decreases n - i,
        {
            out.push((props.key_at(i), props.property_at(i).value().duplicate()));
            i = i + 1;
        }
        Ok(out)
    }

    /// The datafile field names and values of an object, in order.
    pub fn display_datafile(&self, uuid: u128) -> (r: Result<Vec<(String, Value)>, TeaError>)
        ensures
            match r {
                Ok(v) => {
                    &&& obj_index(self@.objects, uuid as int) >= 0
                    &&& v@.len() == self@.objects[obj_index(self@.objects, uuid as int)].datafile.len()
                    &&& forall|i: int|
                        0 <= i < v@.len() ==> ((#[trigger] v@[i]).0@, v@[i].1@) == (
                        self@.objects[obj_index(self@.objects, uuid as int)].datafile[i].0,
                        self@.objects[obj_index(self@.objects, uuid as int)].datafile[i].1.value)
                },
                Err(_) => obj_index(self@.objects, uuid as int) < 0,
            },
    {
        let o = self.get_object(uuid)?;
        let df = o.datafile();
        let n = df.len();
        let mut out: Vec<(String, Value)> = Vec::new();
        let mut i: usize = 0;
        while i < n
            invariant
                i <= n,
                n == df@.len(),
                out@.len() == i,
                forall|j: int|
                    0 <= j < i ==> ((#[trigger] out@[j]).0@, out@[j].1@) == (
                    df@[j].0, df@[j].1.value),
            decreases n - i,
        {
            out.push((df.key_at(i), df.property_at(i).value().duplicate()));
            i = i + 1;
        }
        Ok(out)
    }

    /// The names of an object's attached files, in order.
    pub fn display_files(&self, uuid: u128) -> (r: Result<Vec<String>, TeaError>)
        ensures
            match r {
                Ok(v) => {
                    &&& obj_index(self@.objects, uuid as int) >= 0
                    &&& v@.len() == self@.objects[obj_index(self@.objects, uuid as int)].files.len()
                    &&& forall|i: int|
                        0 <= i < v@.len() ==> (#[trigger] v@[i])@ == self@.objects[obj_index(
                            self@.objects,
                            uuid as int,
                        )].files[i].0
                },
                Err(_) => obj_index(self@.objects, uuid as int) < 0,
            },
    {
        let o = self.get_object(uuid)?;
        let files = o.files();
        let n = files.len();
        let mut out: Vec<String> = Vec::new();
        let mut i: usize = 0;
        while i < n
            invariant
                i <= n,
                n == files@.len(),
                out@.len() == i,
                forall|j: int| 0 <= j < i ==> (#[trigger] out@[j])@ == files@[j].0,
            decreases n - i,
        {
            out.push(files.name_at(i));
            i = i + 1;
        }
        Ok(out)
    }

    /// The bytes of one attached file of an object.
    pub fn display_file(&self, uuid: u128, key: &str) -> (r: Result<Vec<u8>, TeaError>)
        ensures
            match r {
                Ok(b) => {
                    &&& obj_index(self@.objects, uuid as int) >= 0
                    &&& crate::assoc::spec_lookup(
                        self@.objects[obj_index(self@.objects, uuid as int)].files,
                        key@,
                    ) == Some(b@)
                },
                Err(e) => {
                    ||| obj_index(self@.objects, uuid as int) < 0 && e matches TeaError::NoUuid(_)
                    ||| obj_index(self@.objects, uuid as int) >= 0 && e == TeaError::NoFile
                        && !crate::assoc::spec_has_key(
                        self@.objects[obj_index(self@.objects, uuid as int)].files,
                        key@,
                    )
                },
            },
    {
        let o = self.get_object(uuid)?;
        match o.files().get(key) {
            Some(b) => Ok(crate::text::clone_bytes(b)),
            None => {
                proof {
                    crate::assoc::lemma_index_of_in_range(
                        self@.objects[obj_index(self@.objects, uuid as int)].files,
                        key@,
                    );
                }
                Err(TeaError::NoFile)
            },
        }
    }

    /// The current transient status, if any.
    pub fn display_status(&self) -> (r: Option<&String>)
        ensures
            match r {
                Some(s) => self@.status == Some(s@),
                None => self@.status is None,
            },
    {
        match self.status {
            Some(ref s) => Some(s),
            None => None,
        }
    }

    /// How deep each history stands: the undo and redo entry counts.
    pub fn history_lens(&self) -> (r: (usize, usize))
        ensures
            r.0 == self@.undo.len() && r.1 == self@.redo.len(),
    {
        (self.undo_buffer.len(), self.redo_buffer.len())
    }

    /// Borrows the mission container.
    pub fn mission(&self) -> (r: &MissionObject)
        ensures
            r@ == self@.mission,
    {
        &self.missionobject
    }
}

// ---------------------------------------------------------------------
// Undo and redo are exact
// ---------------------------------------------------------------------
/// Every live object's values are ones the engine can have produced.
pub open spec fn objects_values_wf(objs: Seq<ObjectV>) -> bool {
    forall|i: int|
        0 <= i < objs.len() ==> entries_values_wf((#[trigger] objs[i]).properties)
            && entries_values_wf(objs[i].datafile)
}

/// Object lookup sees only identifiers.
pub proof fn lemma_obj_index_frame(a: Seq<ObjectV>, b: Seq<ObjectV>, id: int)
    requires
        a.len() == b.len(),
        forall|j: int| 0 <= j < a.len() ==> (#[trigger] a[j]).uuid == b[j].uuid,
    ensures
        obj_index(a, id) == obj_index(b, id),
    decreases a.len(),
{
    if a.len() > 0 && a[0].uuid != id {
        assert(forall|j: int|
            0 <= j < a.len() - 1 ==> (#[trigger] a.skip(1)[j]) == a[j + 1] && b.skip(1)[j] == b[j
                + 1]);
        lemma_obj_index_frame(a.skip(1), b.skip(1), id);
    }
}

/// Replacing an entry in place moves the first index of its key nowhere.
pub proof fn lemma_index_of_update(es: Seq<EntryV>, k: Seq<char>, e: EntryV)
    requires
        spec_has_key(es, k),
        e.0 == k,
    ensures
        spec_index_of(es.update(spec_index_of(es, k), e), k) == spec_index_of(es, k),
{
    let idx = spec_index_of(es, k);
    crate::assoc::lemma_index_of_in_range(es, k);
    crate::assoc::lemma_index_of_prefix(es, k);
    let es2 = es.update(idx, e);
    assert(es2[idx].0 == k);
    assert forall|j: int| 0 <= j < idx implies (#[trigger] es2[j].0) != k by {
        assert(es2[j] == es[j]);
    }
    crate::assoc::lemma_index_of_first(es2, k, idx);
}

/// The heart of exact undo: applying a mutating event and then its
/// inverse restores the prior live set; applying the inverse's own
/// inverse restores the mutated set. Both captured inverses agree.
pub proof fn lemma_apply_update_inverse(objs: Seq<ObjectV>, ev: EventV)
    requires
        objects_values_wf(objs),
        is_update_event(ev),
        spec_apply_update(objs, ev) matches Some(t) && t.1 is Some,
    ensures
        ({
            let t = spec_apply_update(objs, ev)->Some_0;
            let inv = t.1->Some_0;
            &&& spec_apply_update(t.0, inv) matches Some(b) && b.0 == objs && b.1 is Some
            &&& spec_apply_update(objs, spec_apply_update(t.0, inv)->Some_0.1->Some_0) == Some(
                (t.0, Some(inv)),
            )
        }),
{
    let t = spec_apply_update(objs, ev)->Some_0;
    let objs2 = t.0;
    let inv = t.1->Some_0;
    match ev {
        EventV::UpdateProperty(id, k, v) => {
            let i = obj_index(objs, id);
            let o = objs[i];
            let p = spec_lookup(o.properties, k)->Some_0;
            let w = spec_value_new(v, spec_vtype_name(p.value))->Some_0;
            let idx = spec_index_of(o.properties, k);
            crate::assoc::lemma_index_of_in_range(o.properties, k);
            let es2 = o.properties.update(idx, (k, PropertyV { value: w, flags: p.flags }));
            let o2 = ObjectV { properties: es2, ..o };
            assert(objs2 == objs.update(i, o2));
            assert(0 <= i < objs.len()) by {
                lemma_obj_index_bounds(objs, id);
            }
            lemma_obj_index_frame(objs2, objs, id);
            assert(obj_index(objs2, id) == i);
            assert(objs2[i] == o2);
            lemma_index_of_update(o.properties, k, (k, PropertyV { value: w, flags: p.flags }));
            assert(spec_lookup(es2, k) == Some(PropertyV { value: w, flags: p.flags }));
            crate::properties::lemma_value_new_keeps_vtype(v, p.value);
            assert(spec_vtype_name(w) == spec_vtype_name(p.value));
            assert(value_wf(p.value)) by {
                assert(o.properties[idx].1 == p);
            }
            crate::value::lemma_value_text_roundtrip(p.value);
            assert(spec_value_new(spec_value_text(p.value), spec_vtype_name(w)) == Some(p.value));
            let es3 = es2.update(idx, (k, PropertyV { value: p.value, flags: p.flags }));
            assert(es3 =~= o.properties) by {
                assert(o.properties[idx] == (k, p));
                assert(PropertyV { value: p.value, flags: p.flags } == p);
            }
            let o3 = ObjectV { properties: es3, ..o2 };
            assert(o3 == o);
            assert(objs2.update(i, o3) =~= objs);
            // the inverse of the inverse re-applies the new value
            crate::value::lemma_value_new_wf(v, spec_vtype_name(p.value));
            crate::value::lemma_value_text_roundtrip(w);
            assert(spec_value_new(spec_value_text(w), spec_vtype_name(p.value)) == Some(w));
            assert(objs.update(i, ObjectV { properties: es2, ..o }) == objs2);
        },
        EventV::UpdateDatafile(id, k, v) => {
            let i = obj_index(objs, id);
            let o = objs[i];
            let p = spec_lookup(o.datafile, k)->Some_0;
            let w = spec_value_new(v, spec_vtype_name(p.value))->Some_0;
            let idx = spec_index_of(o.datafile, k);
            crate::assoc::lemma_index_of_in_range(o.datafile, k);
            let es2 = o.datafile.update(idx, (k, PropertyV { value: w, flags: p.flags }));
            let o2 = ObjectV { datafile: es2, ..o };
            assert(objs2 == objs.update(i, o2));
            assert(0 <= i < objs.len()) by {
                lemma_obj_index_bounds(objs, id);
            }
            lemma_obj_index_frame(objs2, objs, id);
            assert(obj_index(objs2, id) == i);
            assert(objs2[i] == o2);
            lemma_index_of_update(o.datafile, k, (k, PropertyV { value: w, flags: p.flags }));
            assert(spec_lookup(es2, k) == Some(PropertyV { value: w, flags: p.flags }));
            crate::properties::lemma_value_new_keeps_vtype(v, p.value);
            assert(value_wf(p.value)) by {
                assert(o.datafile[idx].1 == p);
            }
            crate::value::lemma_value_text_roundtrip(p.value);
            let es3 = es2.update(idx, (k, PropertyV { value: p.value, flags: p.flags }));
            assert(es3 =~= o.datafile) by {
                assert(o.datafile[idx] == (k, p));
                assert(PropertyV { value: p.value, flags: p.flags } == p);
            }
            let o3 = ObjectV { datafile: es3, ..o2 };
            assert(o3 == o);
            assert(objs2.update(i, o3) =~= objs);
            crate::value::lemma_value_new_wf(v, spec_vtype_name(p.value));
            crate::value::lemma_value_text_roundtrip(w);
            assert(objs.update(i, ObjectV { datafile: es2, ..o }) == objs2);
        },
        EventV::UpdateFile(id, k, b) => {
            let i = obj_index(objs, id);
            let o = objs[i];
            let old_buf = spec_lookup(o.files, k)->Some_0;
            let idx = spec_index_of(o.files, k);
            crate::assoc::lemma_index_of_in_range(o.files, k);
            let fs2 = o.files.update(idx, (k, b));
            let o2 = ObjectV { files: fs2, ..o };
            assert(objs2 == objs.update(i, o2));
            assert(0 <= i < objs.len()) by {
                lemma_obj_index_bounds(objs, id);
            }
            lemma_obj_index_frame(objs2, objs, id);
            assert(obj_index(objs2, id) == i);
            assert(objs2[i] == o2);
            lemma_index_of_update_file(o.files, k, (k, b));
            assert(spec_lookup(fs2, k) == Some(b));
            let fs3 = fs2.update(idx, (k, old_buf));
            assert(fs3 =~= o.files) by {
                assert(o.files[idx] == (k, old_buf));
            }
            let o3 = ObjectV { files: fs3, ..o2 };
            assert(o3 == o);
            assert(objs2.update(i, o3) =~= objs);
            assert(objs.update(i, ObjectV { files: fs2, ..o }) == objs2);
        },
        _ => {},
    }
}

/// A found object lies inside the set.
pub proof fn lemma_obj_index_bounds(objs: Seq<ObjectV>, id: int)
    ensures
        obj_index(objs, id) >= 0 ==> 0 <= obj_index(objs, id) < objs.len() && objs[obj_index(
            objs,
            id,
        )].uuid == id,
    decreases objs.len(),
{
    if objs.len() > 0 && objs[0].uuid != id {
        lemma_obj_index_bounds(objs.skip(1), id);
    }
}

/// Replacing a file entry in place moves the first index of its name
/// nowhere.
pub proof fn lemma_index_of_update_file(fs: Seq<FileEntryV>, k: Seq<char>, e: FileEntryV)
    requires
        spec_has_key(fs, k),
        e.0 == k,
    ensures
        spec_index_of(fs.update(spec_index_of(fs, k), e), k) == spec_index_of(fs, k),
{
    let idx = spec_index_of(fs, k);
    crate::assoc::lemma_index_of_in_range(fs, k);
    crate::assoc::lemma_index_of_prefix(fs, k);
    let fs2 = fs.update(idx, e);
    assert(fs2[idx].0 == k);
    assert forall|j: int| 0 <= j < idx implies (#[trigger] fs2[j].0) != k by {
        assert(fs2[j] == fs[j]);
    }
    crate::assoc::lemma_index_of_first(fs2, k, idx);
}

/// The state a step leaves behind, status cleared.
pub open spec fn step_state(d: StepV) -> HandlerV {
    HandlerV {
        mission: d.mission,
        objects: d.objects,
        status: None,
        undo: d.undo,
        redo: d.redo,
    }
}

/// A bounded push keeps its newest entry last.
pub proof fn lemma_cap_push_last(buf: Seq<EventV>, e: EventV)
    ensures
        cap_push(buf, e).len() >= 1,
        cap_push(buf, e).last() == e,
{
    if buf.len() + 1 > history_cap() {
        assert(buf.push(e).skip(1).len() == buf.len());
        assert(buf.push(e).skip(1).last() == buf.push(e).last());
    }
}

/// Law: a mutating event followed by `Undo` restores the prior live set
/// exactly, and the following `Redo` restores the mutated set exactly.
pub proof fn lemma_update_undo_redo(h: HandlerV, ev: EventV)
    requires
        objects_values_wf(h.objects),
        is_update_event(ev),
        spec_apply_update(h.objects, ev) matches Some(t) && t.1 is Some,
    ensures
        ({
            let d1 = spec_dispatch(h, ev);
            let d2 = spec_dispatch(step_state(d1), EventV::Undo);
            let d3 = spec_dispatch(step_state(d2), EventV::Redo);
            &&& !d1.failed
            &&& !d2.failed && d2.objects == h.objects
            &&& !d3.failed && d3.objects == d1.objects
        }),
{
    let t = spec_apply_update(h.objects, ev)->Some_0;
    let inv = t.1->Some_0;
    let d1 = spec_dispatch(h, ev);
    lemma_apply_update_inverse(h.objects, ev);
    lemma_cap_push_last(h.undo, inv);
    let h1 = step_state(d1);
    assert(h1.undo.last() == inv);
    let d2 = spec_dispatch(h1, EventV::Undo);
    let b = spec_apply_update(t.0, inv)->Some_0;
    let ev2 = b.1->Some_0;
    assert(d2.objects == h.objects);
    lemma_cap_push_last(h1.redo, ev2);
    let h2 = step_state(d2);
    assert(h2.redo.last() == ev2);
    assert(h2.objects == h.objects);
    let d3 = spec_dispatch(h2, EventV::Redo);
    assert(spec_apply_update(h.objects, ev2) == Some((t.0, Some(inv))));
    assert(d3.objects == t.0);
}

/// Law: any mutating event that goes through clears the redo history.
pub proof fn lemma_update_clears_redo(h: HandlerV, ev: EventV)
    requires
        is_update_event(ev),
        spec_apply_update(h.objects, ev) is Some,
    ensures
        spec_dispatch(h, ev).redo == Seq::<EventV>::empty(),
{
}

/// Law: the histories never exceed their bound.
pub proof fn lemma_history_bounded(h: HandlerV, ev: EventV)
    requires
        h.undo.len() <= history_cap(),
        h.redo.len() <= history_cap(),
    ensures
        spec_dispatch(h, ev).undo.len() <= history_cap(),
        spec_dispatch(h, ev).redo.len() <= history_cap(),
    decreases ev_rank(ev),
{
    match ev {
        EventV::Keypress(code, shift) => {
            if code == "KeyZ"@ {
                if shift {
                    lemma_history_bounded(h, EventV::Redo);
                } else {
                    lemma_history_bounded(h, EventV::Undo);
                }
            }
        },
        _ => {},
    }
}

/// Dispatch never reads the transient status.
pub proof fn lemma_dispatch_status_blind(h1: HandlerV, h2: HandlerV, ev: EventV)
    requires
        h1.mission == h2.mission,
        h1.objects == h2.objects,
        h1.undo == h2.undo,
        h1.redo == h2.redo,
    ensures
        spec_dispatch(h1, ev) == spec_dispatch(h2, ev),
    decreases ev_rank(ev),
{
    match ev {
        EventV::Keypress(code, shift) => {
            if code == "KeyZ"@ {
                if shift {
                    lemma_dispatch_status_blind(h1, h2, EventV::Redo);
                } else {
                    lemma_dispatch_status_blind(h1, h2, EventV::Undo);
                }
            }
        },
        _ => {},
    }
}

/// Whether a controller state is the given step's outcome: everything the
/// step says carried over, and a status exactly when it failed.
pub open spec fn step_matches(h: HandlerV, d: StepV) -> bool {
    &&& h.mission == d.mission
    &&& h.objects == d.objects
    &&& h.undo == d.undo
    &&& h.redo == d.redo
    &&& (h.status is Some) == d.failed
}

/// A short description of an edit-layer error for the status line.
fn error_text(e: &TeaError) -> (r: String)
    ensures
        r@.len() > 0,
{
    proof {
        reveal_strlit("no file on object under associated key");
        reveal_strlit("nothing to redo");
        reveal_strlit("nothing to undo");
        reveal_strlit("no object with this identifier");
        reveal_strlit("format engine failure");
    }
    match e {
        TeaError::NoFile => String::from_str("no file on object under associated key"),
        TeaError::NoRedo => String::from_str("nothing to redo"),
        TeaError::NoUndo => String::from_str("nothing to undo"),
        TeaError::NoUuid(_) => String::from_str("no object with this identifier"),
        TeaError::Playmission(_) => String::from_str("format engine failure"),
    }
}

} // verus!
