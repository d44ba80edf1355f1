//! The object-centric event log: objects, events, their attributes and
//! relationships, and the declared types.
use vstd::prelude::*;

use crate::priority::Priority;
use crate::time::{SlurmTime, UtcInstant};

verus! {

/// When an event happened: a scheduler reading, taken on clocks in a fixed
/// zone and converted when the log is put together, or an instant.
#[derive(Clone, Copy, Debug, PartialEq, Eq, Structural)]
pub enum EventTime {
    Local(SlurmTime),
    Utc(UtcInstant),
}

/// The value of an object attribute.
#[derive(Debug)]
pub enum AttrValue {
    Text(String),
    Integer(usize),
    Decimal(Priority),
}

pub enum ValueModel {
    Text(Seq<char>),
    Integer(usize),
    Decimal(Priority),
}

impl View for AttrValue {
    type V = ValueModel;

    open spec fn view(&self) -> ValueModel {
        match self {
            AttrValue::Text(s) => ValueModel::Text(s@),
            AttrValue::Integer(n) => ValueModel::Integer(*n),
            AttrValue::Decimal(p) => ValueModel::Decimal(*p),
        }
    }
}

/// A value that an object attribute took at a time.
#[derive(Debug)]
pub struct ObjectAttribute {
    pub name: String,
    pub value: AttrValue,
    pub time: UtcInstant,
}

pub struct AttrModel {
    pub name: Seq<char>,
    pub value: ValueModel,
    pub time: UtcInstant,
}

impl View for ObjectAttribute {
    type V = AttrModel;

    open spec fn view(&self) -> AttrModel {
        AttrModel { name: self.name@, value: self.value@, time: self.time }
    }
}

/// A qualified link to another object.
#[derive(Debug)]
pub struct Relationship {
    pub object_id: String,
    pub qualifier: String,
}

pub struct RelModel {
    pub object_id: Seq<char>,
    pub qualifier: Seq<char>,
}

impl View for Relationship {
    type V = RelModel;

    open spec fn view(&self) -> RelModel {
        RelModel { object_id: self.object_id@, qualifier: self.qualifier@ }
    }
}

/// A named text attribute of an event.
#[derive(Debug)]
pub struct EventAttribute {
    pub name: String,
    pub value: String,
}

impl View for EventAttribute {
    type V = (Seq<char>, Seq<char>);

    open spec fn view(&self) -> (Seq<char>, Seq<char>) {
        (self.name@, self.value@)
    }
}

/// An object of the log.
#[derive(Debug)]
pub struct OcelObject {
    pub id: String,
    pub object_type: String,
    pub attributes: Vec<ObjectAttribute>,
    pub relationships: Vec<Relationship>,
}

pub struct ObjectModel {
    pub id: Seq<char>,
    pub object_type: Seq<char>,
    pub attributes: Seq<AttrModel>,
    pub relationships: Seq<RelModel>,
}

impl View for OcelObject {
    type V = ObjectModel;

    open spec fn view(&self) -> ObjectModel {
        ObjectModel {
            id: self.id@,
            object_type: self.object_type@,
            attributes: self.attributes@.map_values(|a: ObjectAttribute| a@),
            relationships: self.relationships@.map_values(|r: Relationship| r@),
        }
    }
}

/// An event of the log.
#[derive(Debug)]
pub struct OcelEvent {
    pub id: String,
    pub event_type: String,
    pub time: EventTime,
    pub attributes: Vec<EventAttribute>,
    pub relationships: Vec<Relationship>,
}

pub struct EventModel {
    pub id: Seq<char>,
    pub event_type: Seq<char>,
    pub time: EventTime,
    pub attributes: Seq<(Seq<char>, Seq<char>)>,
    pub relationships: Seq<RelModel>,
}

impl View for OcelEvent {
    type V = EventModel;

    open spec fn view(&self) -> EventModel {
        EventModel {
            id: self.id@,
            event_type: self.event_type@,
            time: self.time,
            attributes: self.attributes@.map_values(|a: EventAttribute| a@),
            relationships: self.relationships@.map_values(|r: Relationship| r@),
        }
    }
}

/// The type of an attribute in a type declaration.
#[derive(Clone, Copy, Debug, PartialEq, Eq, Structural)]
pub enum AttrType {
    String,
    Integer,
    Float,
}

/// A declared object or event type with its attributes.
#[derive(Debug)]
pub struct OcelType {
    pub name: String,
    pub attributes: Vec<(String, AttrType)>,
}

/// An object-centric event log.
#[derive(Debug)]
pub struct Ocel {
    pub object_types: Vec<OcelType>,
    pub event_types: Vec<OcelType>,
    pub objects: Vec<OcelObject>,
    pub events: Vec<OcelEvent>,
}

} // verus!
