//! Audit events: what the daemon records of each operation. The library
//! decides the events; writing them to the audit log is the caller's.
use vstd::prelude::*;

verus! {

/// A value recorded with an audit event.
pub enum AuditValue {
    Text(String),
    List(Vec<String>),
    Number(u64),
    Flag(bool),
}

/// One audit event: its name and the fields recorded with it, in order.
pub struct AuditEvent {
    pub event: String,
    pub fields: Vec<(String, AuditValue)>,
}

/// Whether an event has the given name and records `key` (the entry's key id)
/// as its first field.
pub open spec fn is_event_for(e: AuditEvent, name: Seq<char>, key: Seq<char>) -> bool {
    &&& e.event@ == name
    &&& e.fields@.len() >= 1
    &&& e.fields@[0].0@ == "key"@
    &&& e.fields@[0].1 matches AuditValue::Text(k) && k@ == key
}

/// Whether field `i` of an event records the text `value` under `name`.
pub open spec fn text_field(e: AuditEvent, i: int, name: Seq<char>, value: Seq<char>) -> bool {
    &&& e.fields@[i].0@ == name
    &&& e.fields@[i].1 matches AuditValue::Text(v) && v@ == value
}

/// Whether field `i` of an event records the list `values` under `name`.
pub open spec fn list_field(e: AuditEvent, i: int, name: Seq<char>, values: Seq<Seq<char>>) -> bool {
    &&& e.fields@[i].0@ == name
    &&& e.fields@[i].1 matches AuditValue::List(v) && crate::order::texts(v@) == values
}

/// Whether field `i` of an event records the number `value` under `name`.
pub open spec fn number_field(e: AuditEvent, i: int, name: Seq<char>, value: u64) -> bool {
    &&& e.fields@[i].0@ == name
    &&& e.fields@[i].1 == AuditValue::Number(value)
}

/// An audit event with the given name and no fields yet.
pub fn event(name: &str) -> (e: AuditEvent)
    ensures
        e.event@ == name@,
        e.fields@.len() == 0,
{
    AuditEvent { event: name.to_owned(), fields: Vec::new() }
}

impl AuditEvent {
    /// Records a text field.
    pub fn text(&mut self, name: &str, value: String)
        ensures
            final(self).event == old(self).event,
            final(self).fields@.len() == old(self).fields@.len() + 1,
            forall|i: int| 0 <= i < old(self).fields@.len() ==> #[trigger] final(self).fields@[i] == old(self).fields@[i],
            final(self).fields@.last().0@ == name@,
            final(self).fields@.last().1 matches AuditValue::Text(v) && v@ == value@,
    {
        self.fields.push((name.to_owned(), AuditValue::Text(value)));
    }

    /// Records a list field.
    pub fn list(&mut self, name: &str, value: Vec<String>)
        ensures
            final(self).event == old(self).event,
            final(self).fields@.len() == old(self).fields@.len() + 1,
            forall|i: int| 0 <= i < old(self).fields@.len() ==> #[trigger] final(self).fields@[i] == old(self).fields@[i],
            final(self).fields@.last().0@ == name@,
            final(self).fields@.last().1 matches AuditValue::List(v) && v@ == value@,
    {
        self.fields.push((name.to_owned(), AuditValue::List(value)));
    }

    /// Records a number field.
    pub fn number(&mut self, name: &str, value: u64)
        ensures
            final(self).event == old(self).event,
            final(self).fields@.len() == old(self).fields@.len() + 1,
            forall|i: int| 0 <= i < old(self).fields@.len() ==> #[trigger] final(self).fields@[i] == old(self).fields@[i],
            final(self).fields@.last().0@ == name@,
            final(self).fields@.last().1 == AuditValue::Number(value),
    {
        self.fields.push((name.to_owned(), AuditValue::Number(value)));
    }

    /// Records a yes/no field.
    pub fn flag(&mut self, name: &str, value: bool)
        ensures
            final(self).event == old(self).event,
            final(self).fields@.len() == old(self).fields@.len() + 1,
            forall|i: int| 0 <= i < old(self).fields@.len() ==> #[trigger] final(self).fields@[i] == old(self).fields@[i],
            final(self).fields@.last().0@ == name@,
            final(self).fields@.last().1 == AuditValue::Flag(value),
    {
        self.fields.push((name.to_owned(), AuditValue::Flag(value)));
    }
}

} // verus!
