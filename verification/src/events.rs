//! The markup-event vocabulary that the instruction parser consumes and the
//! instruction writer produces, together with its mathematical model.

use vstd::prelude::*;
use crate::text::str_eq;

verus! {

/// One attribute of a tag; the value is stored unescaped.
#[derive(Debug, Clone, PartialEq)]
pub struct Attr {
    pub key: String,
    pub value: String,
}

/// Model of an attribute: key and value as character sequences.
pub type AttrModel = (Seq<char>, Seq<char>);

/// One markup event. `SelfClosed` is an empty (self-closing) tag.
#[derive(Debug, Clone, PartialEq)]
pub enum XmlEvent {
    Start { name: String, attrs: Vec<Attr> },
    SelfClosed { name: String, attrs: Vec<Attr> },
    End { name: String },
    Text { text: String },
    Comment { text: String },
}

/// Model of a markup event over character sequences.
pub enum EvModel {
    Start { name: Seq<char>, attrs: Seq<AttrModel> },
    SelfClosed { name: Seq<char>, attrs: Seq<AttrModel> },
    End { name: Seq<char> },
    Text { text: Seq<char> },
    Comment { text: Seq<char> },
}

impl Attr {
    pub open spec fn model(self) -> AttrModel {
        (self.key@, self.value@)
    }
}

pub open spec fn attrs_model(attrs: Seq<Attr>) -> Seq<AttrModel> {
    attrs.map_values(|a: Attr| a.model())
}

impl XmlEvent {
    pub open spec fn model(self) -> EvModel {
        match self {
            XmlEvent::Start { name, attrs } => EvModel::Start {
                name: name@,
                attrs: attrs_model(attrs@),
            },
            XmlEvent::SelfClosed { name, attrs } => EvModel::SelfClosed {
                name: name@,
                attrs: attrs_model(attrs@),
            },
            XmlEvent::End { name } => EvModel::End { name: name@ },
            XmlEvent::Text { text } => EvModel::Text { text: text@ },
            XmlEvent::Comment { text } => EvModel::Comment { text: text@ },
        }
    }
}

pub open spec fn evs_model(evs: Seq<XmlEvent>) -> Seq<EvModel> {
    evs.map_values(|e: XmlEvent| e.model())
}

/// The model of an optional string.
pub open spec fn opt_str_model(o: Option<String>) -> Option<Seq<char>> {
    match o {
        Some(s) => Some(s@),
        None => None,
    }
}

/// Looks a key up among attributes; the first match wins.
pub open spec fn attr_lookup(attrs: Seq<AttrModel>, key: Seq<char>) -> Option<Seq<char>>
    decreases attrs.len(),
{
    if attrs.len() == 0 {
        None
    } else if attrs[0].0 == key {
        Some(attrs[0].1)
    } else {
        attr_lookup(attrs.drop_first(), key)
    }
}

/// Executable attribute lookup, proved equal to `attr_lookup`.
pub fn find_attr(attrs: &Vec<Attr>, key: &str) -> (r: Option<String>)
    ensures
        opt_str_model(r) == attr_lookup(attrs_model(attrs@), key@),
{
    let n = attrs.len();
    proof {
        assert(attrs_model(attrs@).skip(0) =~= attrs_model(attrs@));
    }
    for i in 0..n
        invariant
            n == attrs@.len(),
            attr_lookup(attrs_model(attrs@), key@) == attr_lookup(
                attrs_model(attrs@).skip(i as int),
                key@,
            ),
    {
        proof {
            assert(attrs_model(attrs@).skip(i as int)[0] == attrs@[i as int].model());
            assert(attrs_model(attrs@).skip(i as int).drop_first() =~= attrs_model(attrs@).skip(
                i + 1,
            ));
        }
        if str_eq(attrs[i].key.as_str(), key) {
            return Some(attrs[i].value.clone());
        }
    }
    proof {
        assert(attrs_model(attrs@).skip(n as int).len() == 0);
    }
    None
}

/// Copies an event; the copy has the same model.
pub fn clone_event(e: &XmlEvent) -> (r: XmlEvent)
    ensures
        r.model() == e.model(),
{
    match e {
        XmlEvent::Start { name, attrs } => XmlEvent::Start {
            name: name.clone(),
            attrs: clone_attrs(attrs),
        },
        XmlEvent::SelfClosed { name, attrs } => XmlEvent::SelfClosed {
            name: name.clone(),
            attrs: clone_attrs(attrs),
        },
        XmlEvent::End { name } => XmlEvent::End { name: name.clone() },
        XmlEvent::Text { text } => XmlEvent::Text { text: text.clone() },
        XmlEvent::Comment { text } => XmlEvent::Comment { text: text.clone() },
    }
}

/// Copies an attribute list; the copy has the same model.
pub fn clone_attrs(attrs: &Vec<Attr>) -> (r: Vec<Attr>)
    ensures
        attrs_model(r@) == attrs_model(attrs@),
{
    let mut r: Vec<Attr> = Vec::new();
    let n = attrs.len();
    for i in 0..n
        invariant
            n == attrs@.len(),
            r@.len() == i,
            attrs_model(r@) == attrs_model(attrs@).take(i as int),
    {
        let ghost rold = r@;
        r.push(Attr { key: attrs[i].key.clone(), value: attrs[i].value.clone() });
        proof {
            assert forall|j: int| 0 <= j < i + 1 implies attrs_model(r@)[j] == attrs_model(
                attrs@,
            ).take(i + 1)[j] by {
                assert(attrs_model(r@)[j] == r@[j].model());
                assert(attrs_model(attrs@).take(i + 1)[j] == attrs@[j].model());
                if j < i as int {
                    assert(r@[j] == rold[j]);
                    assert(attrs_model(rold)[j] == rold[j].model());
                    assert(attrs_model(attrs@).take(i as int)[j] == attrs@[j].model());
                }
            }
            assert(attrs_model(r@) =~= attrs_model(attrs@).take(i + 1));
        }
    }
    proof {
        assert(attrs_model(attrs@).take(n as int) =~= attrs_model(attrs@));
    }
    r
}

} // verus!
