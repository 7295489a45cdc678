use vstd::prelude::*;

verus! {

/// One event attached to a handler's response: a type tag and a list
/// of key/value attributes.
#[derive(Clone, Debug, PartialEq, Eq)]
pub struct Event {
    pub ty: String,
    pub attributes: Vec<(String, String)>,
}

impl Event {
    /// A fresh event of the given type with no attributes yet.
    pub fn new(ty: &str) -> (r: Event)
        ensures
            r.ty@ == ty@,
            r.attributes@.len() == 0,
    {
        Event { ty: ty.to_owned(), attributes: Vec::new() }
    }

    /// The event extended by one attribute.
    pub fn add_attribute(self, key: &str, value: String) -> (r: Event)
        ensures
            r.ty == self.ty,
            r.attributes@.len() == self.attributes@.len() + 1,
            forall|i: int| 0 <= i < self.attributes@.len() ==> r.attributes@[i] == self.attributes@[i],
            r.attributes@.last().0@ == key@,
            r.attributes@.last().1 == value,
    {
        let mut attributes = self.attributes;
        attributes.push((key.to_owned(), value));
        Event { ty: self.ty, attributes }
    }
}

/// Creates an event with the router's default prefix and the given
/// action attribute.
pub fn make_event(action: &str) -> (r: Event)
    ensures
        r.ty@ == "xcvm.gateway"@,
        r.attributes@.len() == 1,
        r.attributes@[0].0@ == "action"@,
        r.attributes@[0].1@ == action@,
{
    Event::new("xcvm.gateway").add_attribute("action", action.to_owned())
}

} // verus!
