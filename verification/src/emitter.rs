//! The emitter capability: where finished events go. The core only requires
//! the contract of `Emitter`; transports live outside. A recording emitter is
//! provided for tests and for callers that drain events themselves, and a
//! failing one to exercise the failure path.

use vstd::prelude::*;

use crate::fields::FieldMap;

verus! {

/// What one transmitted event is: its fields and its sample rate.
pub ghost struct EventView {
    pub fields: Map<Seq<char>, serde_json::Value>,
    pub sample_rate: u64,
}

/// A finished span ready for transmission.
pub struct Event {
    fields: FieldMap,
    sample_rate: u64,
}

impl View for Event {
    type V = EventView;

    closed spec fn view(&self) -> EventView {
        EventView { fields: self.fields@, sample_rate: self.sample_rate }
    }
}

impl Event {
    pub closed spec fn wf(&self) -> bool {
        self.fields.wf()
    }

    pub(crate) fn make(fields: FieldMap, sample_rate: u64) -> (r: Event)
        ensures
            r@ == (EventView { fields: fields@, sample_rate }),
            fields.wf() ==> r.wf(),
    {
        Event { fields, sample_rate }
    }

    /// Look one field of the event up.
    pub fn field(&self, key: &str) -> (r: Option<&serde_json::Value>)
        requires
            self.wf(),
        ensures
            match r {
                Some(v) => self@.fields.dom().contains(key@) && *v == self@.fields[key@],
                None => !self@.fields.dom().contains(key@),
            },
    {
        self.fields.get(key)
    }

    /// How many fields the event carries.
    pub fn field_count(&self) -> (r: usize)
        requires
            self.wf(),
        ensures
            r == self@.fields.len(),
    {
        self.fields.len()
    }

    /// The sample rate recorded on the event.
    pub fn sample_rate(&self) -> (r: u64)
        ensures
            r == self@.sample_rate,
    {
        self.sample_rate
    }
}

/// Anything that can take delivery of finished events. `log` is the sequence
/// of events handed over so far; `transmit` appends exactly the event it is
/// given and reports transport success or failure.
pub trait Emitter: Sized {
    spec fn log(&self) -> Seq<EventView>;

    fn transmit(&mut self, ev: Event) -> (ok: bool)
        ensures
            final(self).log() == old(self).log().push(ev@),
    ;
}

/// An emitter that keeps every event in memory and always reports success.
pub struct RecordingEmitter {
    events: Vec<Event>,
}

impl RecordingEmitter {
    pub fn new() -> (r: RecordingEmitter)
        ensures
            r.log() == Seq::<EventView>::empty(),
    {
        let r = RecordingEmitter { events: Vec::new() };
        proof {
            assert(r.log() =~= Seq::<EventView>::empty());
        }
        r
    }

    /// The events transmitted so far.
    pub fn events(&self) -> (r: &Vec<Event>)
        ensures
            r@.len() == self.log().len(),
            forall|i: int| 0 <= i < r@.len() ==> (#[trigger] r@[i])@ == self.log()[i],
    {
        &self.events
    }

    /// How many events were transmitted.
    pub fn len(&self) -> (r: usize)
        ensures
            r == self.log().len(),
    {
        self.events.len()
    }

    /// Every event this emitter took is well formed, so its fields can be
    /// inspected.
    pub closed spec fn events_wf(&self) -> bool {
        forall|i: int| 0 <= i < self.events@.len() ==> (#[trigger] self.events@[i]).wf()
    }

    /// A borrowed event, for inspection.
    pub fn event_at(&self, i: usize) -> (r: &Event)
        requires
            i < self.log().len(),
        ensures
            r@ == self.log()[i as int],
    {
        &self.events[i]
    }
}

impl Emitter for RecordingEmitter {
    closed spec fn log(&self) -> Seq<EventView> {
        self.events@.map(|i: int, e: Event| e@)
    }

    fn transmit(&mut self, ev: Event) -> (ok: bool) {
        self.events.push(ev);
        proof {
            assert(self.events@.map(|i: int, e: Event| e@) =~= old(self).events@.map(
                |i: int, e: Event| e@,
            ).push(ev@));
        }
        true
    }
}

/// An emitter whose transport always fails; it still logs what it was handed,
/// so at-most-once delivery can be observed.
pub struct FailingEmitter {
    events: Vec<Event>,
}

impl FailingEmitter {
    pub fn new() -> (r: FailingEmitter)
        ensures
            r.log() == Seq::<EventView>::empty(),
    {
        let r = FailingEmitter { events: Vec::new() };
        proof {
            assert(r.log() =~= Seq::<EventView>::empty());
        }
        r
    }

    /// How many events were handed over despite the failures.
    pub fn len(&self) -> (r: usize)
        ensures
            r == self.log().len(),
    {
        self.events.len()
    }
}

impl Emitter for FailingEmitter {
    closed spec fn log(&self) -> Seq<EventView> {
        self.events@.map(|i: int, e: Event| e@)
    }

    fn transmit(&mut self, ev: Event) -> (ok: bool) {
        self.events.push(ev);
        proof {
            assert(self.events@.map(|i: int, e: Event| e@) =~= old(self).events@.map(
                |i: int, e: Event| e@,
            ).push(ev@));
        }
        false
    }
}

} // verus!
