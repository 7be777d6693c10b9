//! The instruction writer: serializes a command sequence back to markup
//! events in canonical shape. Wrappers, no-ops and unrecognized commands
//! produce no output.

use vstd::prelude::*;
use crate::command::{
    Command, CmdModel, CsvInstruction, InstModel, InstructionSet, cmds_model, csv_delim,
    csv_op_name, join_texts,
};
use crate::events::{Attr, AttrModel, EvModel, XmlEvent, attrs_model, clone_event, evs_model};
use crate::text::char_str;
use vstd::string::StrSliceExecFns;
use vstd::string::StringExecFns;

verus! {

/// The attribute value the writer uses for an optional attribute name.
pub open spec fn attr_or_empty(a: Option<Seq<char>>) -> Seq<char> {
    match a {
        Some(s) => s,
        None => Seq::empty(),
    }
}

/// The serialized delimiter of a CSV operator; a missing operator falls
/// back to the default comma.
pub open spec fn delim_text(o: Option<CsvInstruction>) -> Seq<char> {
    match o {
        Some(c) => seq![csv_delim(c)],
        None => seq![','],
    }
}

/// The serialized name of a CSV operator; a missing operator falls back
/// to `add`.
pub open spec fn op_text(o: Option<CsvInstruction>) -> Seq<char> {
    match o {
        Some(c) => csv_op_name(c),
        None => "add"@,
    }
}

/// The events of a collection command: start tag with the xpath, the
/// captured payload replayed verbatim, and the matching end tag.
pub open spec fn coll_events(name: Seq<char>, i: InstModel) -> Seq<EvModel> {
    seq![EvModel::Start { name: name, attrs: seq![("xpath"@, i.xpath)] }] + i.values + seq![
        EvModel::End { name: name },
    ]
}

/// The text body of a text command: nothing when the joined payload is
/// empty, else one text event.
pub open spec fn text_part(values: Seq<EvModel>) -> Seq<EvModel> {
    if join_texts(values).len() == 0 {
        Seq::empty()
    } else {
        seq![EvModel::Text { text: join_texts(values) }]
    }
}

/// The events of a text command: start tag with its attributes, the
/// joined text body, and the matching end tag.
pub open spec fn text_events(name: Seq<char>, attrs: Seq<AttrModel>, values: Seq<EvModel>) -> Seq<
    EvModel,
> {
    seq![EvModel::Start { name: name, attrs: attrs }] + text_part(values) + seq![
        EvModel::End { name: name },
    ]
}

/// The canonical markup events of one command.
pub open spec fn wr_cmd(c: CmdModel) -> Seq<EvModel> {
    match c {
        CmdModel::Append(i) => coll_events("append"@, i),
        CmdModel::InsertAfter(i) => coll_events("insertafter"@, i),
        CmdModel::InsertBefore(i) => coll_events("insertbefore"@, i),
        CmdModel::Csv(i) => text_events(
            "csv"@,
            seq![("xpath"@, i.xpath), ("delim"@, delim_text(i.csv_op)), ("op"@, op_text(i.csv_op))],
            i.values,
        ),
        CmdModel::SetValue(i) => text_events("set"@, seq![("xpath"@, i.xpath)], i.values),
        CmdModel::SetAttribute(i) => text_events(
            "setattribute"@,
            seq![("xpath"@, i.xpath), ("name"@, attr_or_empty(i.attribute))],
            i.values,
        ),
        CmdModel::Remove(i) => seq![
            EvModel::SelfClosed { name: "remove"@, attrs: seq![("xpath"@, i.xpath)] },
        ],
        CmdModel::RemoveAttribute(i) => seq![
            EvModel::SelfClosed {
                name: "removeattribute"@,
                attrs: seq![("xpath"@, i.xpath), ("name"@, attr_or_empty(i.attribute))],
            },
        ],
        CmdModel::Comment(t) => seq![EvModel::Comment { text: t }],
        CmdModel::NoOp => Seq::empty(),
        CmdModel::StartTag(_) => Seq::empty(),
        CmdModel::Unknown => Seq::empty(),
    }
}

/// The canonical markup events of a command sequence, in order.
pub open spec fn wr_cmds(cs: Seq<CmdModel>) -> Seq<EvModel>
    decreases cs.len(),
{
    if cs.len() == 0 {
        Seq::empty()
    } else {
        wr_cmd(cs[0]) + wr_cmds(cs.drop_first())
    }
}

pub proof fn lemma_wr_cmds_push(cs: Seq<CmdModel>, c: CmdModel)
    ensures
        wr_cmds(cs.push(c)) == wr_cmds(cs) + wr_cmd(c),
    decreases cs.len(),
{
    if cs.len() == 0 {
        reveal_with_fuel(wr_cmds, 2);
        assert(cs.push(c)[0] == c);
        assert(cs.push(c).drop_first() =~= Seq::<CmdModel>::empty());
        assert(wr_cmds(cs.push(c)) =~= wr_cmds(cs) + wr_cmd(c));
    } else {
        assert(cs.push(c)[0] == cs[0]);
        assert(cs.push(c).drop_first() =~= cs.drop_first().push(c));
        lemma_wr_cmds_push(cs.drop_first(), c);
        assert(wr_cmds(cs.push(c)) =~= wr_cmds(cs) + wr_cmd(c));
    }
}

/// Appends the payload's events to the output, replayed verbatim.
fn write_payload(values: &Vec<XmlEvent>, out: &mut Vec<XmlEvent>)
    ensures
        evs_model(final(out)@) == evs_model(old(out)@) + evs_model(values@),
{
    let n = values.len();
    proof {
        assert(evs_model(out@) =~= evs_model(out@) + evs_model(values@).take(0));
    }
    for j in 0..n
        invariant
            n == values@.len(),
            evs_model(out@) == evs_model(old(out)@) + evs_model(values@).take(j as int),
    {
        let e = clone_event(&values[j]);
        let ghost pre = evs_model(out@);
        out.push(e);
        proof {
            assert(evs_model(out@) =~= pre.push(values@[j as int].model()));
            assert(pre.push(values@[j as int].model()) =~= evs_model(old(out)@) + evs_model(
                values@,
            ).take(j + 1));
        }
    }
    proof {
        assert(evs_model(values@).take(n as int) =~= evs_model(values@));
    }
}

/// Appends a one-attribute start or self-closed tag plus payload and end
/// tag for a collection command.
fn write_collection(name: &str, i: &InstructionSet, out: &mut Vec<XmlEvent>)
    ensures
        evs_model(final(out)@) == evs_model(old(out)@) + coll_events(name@, i.model()),
{
    let mut attrs: Vec<Attr> = Vec::new();
    attrs.push(Attr { key: String::from_str("xpath"), value: i.xpath.clone() });
    let ghost pre0 = evs_model(out@);
    proof {
        assert(attrs_model(attrs@) =~= seq![("xpath"@, i.xpath@)]);
    }
    let start = XmlEvent::Start { name: String::from_str(name), attrs };
    out.push(start);
    proof {
        assert(evs_model(out@) =~= pre0.push(
            EvModel::Start { name: name@, attrs: seq![("xpath"@, i.xpath@)] },
        ));
    }
    write_payload(&i.values, out);
    let ghost pre1 = evs_model(out@);
    out.push(XmlEvent::End { name: String::from_str(name) });
    proof {
        assert(evs_model(out@) =~= pre1.push(EvModel::End { name: name@ }));
        assert(evs_model(out@) =~= pre0 + coll_events(name@, i.model()));
    }
}

/// Appends a start tag, the joined text body when it is not empty, and the
/// end tag for a text command.
fn write_text_command(name: &str, attrs: Vec<Attr>, values: &Vec<XmlEvent>, out: &mut Vec<XmlEvent>)
    ensures
        evs_model(final(out)@) == evs_model(old(out)@) + text_events(
            name@,
            attrs_model(attrs@),
            evs_model(values@),
        ),
{
    let ghost pre0 = evs_model(out@);
    let ghost am = attrs_model(attrs@);
    let start = XmlEvent::Start { name: String::from_str(name), attrs };
    out.push(start);
    proof {
        assert(evs_model(out@) =~= pre0.push(EvModel::Start { name: name@, attrs: am }));
    }
    let t = crate::command::join_values(values);
    if t.as_str().unicode_len() > 0 {
        let ghost pre1 = evs_model(out@);
        out.push(XmlEvent::Text { text: t });
        proof {
            assert(evs_model(out@) =~= pre1.push(
                EvModel::Text { text: join_texts(evs_model(values@)) },
            ));
        }
    }
    let ghost pre2 = evs_model(out@);
    out.push(XmlEvent::End { name: String::from_str(name) });
    proof {
        assert(evs_model(out@) =~= pre2.push(EvModel::End { name: name@ }));
        assert(evs_model(out@) =~= pre0 + text_events(name@, am, evs_model(values@)));
    }
}

/// Appends a self-closed tag carrying the given attributes.
fn write_self_closed(name: &str, attrs: Vec<Attr>, out: &mut Vec<XmlEvent>)
    ensures
        evs_model(final(out)@) == evs_model(old(out)@) + seq![
            EvModel::SelfClosed { name: name@, attrs: attrs_model(attrs@) },
        ],
{
    let ghost pre0 = evs_model(out@);
    let ghost am = attrs_model(attrs@);
    out.push(XmlEvent::SelfClosed { name: String::from_str(name), attrs });
    proof {
        assert(evs_model(out@) =~= pre0.push(EvModel::SelfClosed { name: name@, attrs: am }));
        assert(pre0.push(EvModel::SelfClosed { name: name@, attrs: am }) =~= pre0 + seq![
            EvModel::SelfClosed { name: name@, attrs: am },
        ]);
    }
}

/// One attribute from a key literal and an owned value.
fn mk_attr(key: &str, value: String) -> (r: Attr)
    ensures
        r.model() == (key@, value@),
{
    Attr { key: String::from_str(key), value }
}

impl Command {
    /// Appends this command's canonical markup events to the output.
    ///
    /// `StartTag`, `NoOp` and `Unknown` append nothing.
    pub fn write(&self, out: &mut Vec<XmlEvent>)
        ensures
            evs_model(final(out)@) == evs_model(old(out)@) + wr_cmd(self.model()),
    {
        match self {
            Command::Append(i) => {
                write_collection("append", i, out);
            },
            Command::InsertAfter(i) => {
                write_collection("insertafter", i, out);
            },
            Command::InsertBefore(i) => {
                write_collection("insertbefore", i, out);
            },
            Command::Csv(i) => {
                let mut attrs: Vec<Attr> = Vec::new();
                attrs.push(mk_attr("xpath", i.xpath.clone()));
                let delim_s: String;
                let op_s: String;
                match &i.csv_op {
                    Some(o) => {
                        delim_s = char_str(*o.delim());
                        op_s = String::from_str(o.op());
                    },
                    None => {
                        delim_s = char_str(',');
                        op_s = String::from_str("add");
                    },
                }
                attrs.push(mk_attr("delim", delim_s));
                attrs.push(mk_attr("op", op_s));
                proof {
                    assert(attrs_model(attrs@) =~= seq![
                        ("xpath"@, i.xpath@),
                        ("delim"@, delim_text(i.csv_op)),
                        ("op"@, op_text(i.csv_op)),
                    ]);
                }
                write_text_command("csv", attrs, &i.values, out);
            },
            Command::SetValue(i) => {
                let mut attrs: Vec<Attr> = Vec::new();
                attrs.push(mk_attr("xpath", i.xpath.clone()));
                proof {
                    assert(attrs_model(attrs@) =~= seq![("xpath"@, i.xpath@)]);
                }
                write_text_command("set", attrs, &i.values, out);
            },
            Command::SetAttribute(i) => {
                let mut attrs: Vec<Attr> = Vec::new();
                attrs.push(mk_attr("xpath", i.xpath.clone()));
                let name_v: String = match &i.attribute {
                    Some(a) => a.clone(),
                    None => String::new(),
                };
                attrs.push(mk_attr("name", name_v));
                proof {
                    assert(attrs_model(attrs@) =~= seq![
                        ("xpath"@, i.xpath@),
                        ("name"@, attr_or_empty(crate::events::opt_str_model(i.attribute))),
                    ]);
                }
                write_text_command("setattribute", attrs, &i.values, out);
            },
            Command::Remove(i) => {
                let mut attrs: Vec<Attr> = Vec::new();
                attrs.push(mk_attr("xpath", i.xpath.clone()));
                proof {
                    assert(attrs_model(attrs@) =~= seq![("xpath"@, i.xpath@)]);
                }
                write_self_closed("remove", attrs, out);
            },
            Command::RemoveAttribute(i) => {
                let mut attrs: Vec<Attr> = Vec::new();
                attrs.push(mk_attr("xpath", i.xpath.clone()));
                let name_v: String = match &i.attribute {
                    Some(a) => a.clone(),
                    None => String::new(),
                };
                attrs.push(mk_attr("name", name_v));
                proof {
                    assert(attrs_model(attrs@) =~= seq![
                        ("xpath"@, i.xpath@),
                        ("name"@, attr_or_empty(crate::events::opt_str_model(i.attribute))),
                    ]);
                }
                write_self_closed("removeattribute", attrs, out);
            },
            Command::Comment(t) => {
                let ghost pre0 = evs_model(out@);
                out.push(XmlEvent::Comment { text: t.clone() });
                proof {
                    assert(evs_model(out@) =~= pre0.push(EvModel::Comment { text: t@ }));
                    assert(pre0.push(EvModel::Comment { text: t@ }) =~= pre0 + seq![
                        EvModel::Comment { text: t@ },
                    ]);
                }
            },
            Command::NoOp => {
                proof {
                    assert(evs_model(out@) =~= evs_model(out@) + Seq::<EvModel>::empty());
                }
            },
            Command::StartTag(_) => {
                proof {
                    assert(evs_model(out@) =~= evs_model(out@) + Seq::<EvModel>::empty());
                }
            },
            Command::Unknown => {
                proof {
                    assert(evs_model(out@) =~= evs_model(out@) + Seq::<EvModel>::empty());
                }
            },
        }
    }
}

/// Appends the canonical markup events of a command sequence, in order.
pub fn write_commands(cs: &Vec<Command>, out: &mut Vec<XmlEvent>)
    ensures
        evs_model(final(out)@) == evs_model(old(out)@) + wr_cmds(cmds_model(cs@)),
{
    let n = cs.len();
    proof {
        assert(evs_model(out@) =~= evs_model(out@) + wr_cmds(cmds_model(cs@).take(0)));
    }
    for j in 0..n
        invariant
            n == cs@.len(),
            evs_model(out@) == evs_model(old(out)@) + wr_cmds(cmds_model(cs@).take(j as int)),
    {
        cs[j].write(out);
        proof {
            lemma_wr_cmds_push(cmds_model(cs@).take(j as int), cs@[j as int].model());
            assert(cmds_model(cs@).take(j + 1) =~= cmds_model(cs@).take(j as int).push(
                cs@[j as int].model(),
            ));
            assert(evs_model(out@) =~= evs_model(old(out)@) + wr_cmds(cmds_model(cs@).take(j + 1)));
        }
    }
    proof {
        assert(cmds_model(cs@).take(n as int) =~= cmds_model(cs@));
    }
}


/// **Opacity.** A collection command's serialization replays its captured
/// payload verbatim: everything between the start tag and the matching
/// end tag is exactly the captured markup, unchanged.
pub proof fn lemma_collection_payload_verbatim(name: Seq<char>, i: InstModel)
    ensures
        coll_events(name, i).len() == i.values.len() + 2,
        coll_events(name, i).subrange(1, i.values.len() as int + 1) == i.values,
{
    assert(coll_events(name, i).subrange(1, i.values.len() as int + 1) =~= i.values);
}

} // verus!
