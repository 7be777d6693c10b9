//! Round trip: re-parsing the writer's canonical output yields the same
//! command sequence. Wrapper structure is not reconstructed, and only
//! commands the writer can represent faithfully are covered (see `rt_ok`).

use vstd::prelude::*;
use crate::command::{CmdModel, InstModel, Kind, ev_text, join_texts, kind_of_name};
use crate::events::{AttrModel, EvModel, attr_lookup};
use crate::parser::{PStateM, build_inst, lemma_pfold_append, make_cmd, parse_spec, pfold, pstep};
use crate::text::{flat_fixed_char, flat_of, lemma_flat_of_fixed};
use crate::writer::{coll_events, text_events, text_part, wr_cmd, wr_cmds};

verus! {

/// The given event closes a command of the given kind.
pub open spec fn ev_closes(e: EvModel, k: Kind) -> bool {
    match e {
        EvModel::End { name } => kind_of_name(name) == k,
        _ => false,
    }
}

/// A captured payload that replays verbatim: no event in it reads as the
/// command's own closing tag.
pub open spec fn payload_replayable(vs: Seq<EvModel>, k: Kind) -> bool {
    forall|j: int| 0 <= j < vs.len() ==> !ev_closes(#[trigger] vs[j], k)
}

/// A text payload in the canonical form the writer's comma-join keeps:
/// empty, or one non-empty text fragment.
pub open spec fn values_joinable(vs: Seq<EvModel>) -> bool {
    vs.len() == 0 || (vs.len() == 1 && vs[0] is Text && ev_text(vs[0]).len() > 0)
}

/// A command the writer serializes faithfully: its payload is in canonical
/// shape, its required attribute fields are present, and the rest absent.
/// Wrappers, no-ops and unknown commands are not serialized at all.
pub open spec fn rt_ok(c: CmdModel) -> bool {
    match c {
        CmdModel::Append(i) => i.attribute is None && i.csv_op is None && payload_replayable(
            i.values,
            Kind::Append,
        ),
        CmdModel::InsertAfter(i) => i.attribute is None && i.csv_op is None && payload_replayable(
            i.values,
            Kind::InsertAfter,
        ),
        CmdModel::InsertBefore(i) => i.attribute is None && i.csv_op is None && payload_replayable(
            i.values,
            Kind::InsertBefore,
        ),
        CmdModel::Csv(i) => i.attribute is None && i.csv_op is Some && values_joinable(i.values),
        CmdModel::SetValue(i) => i.attribute is None && i.csv_op is None && values_joinable(
            i.values,
        ),
        CmdModel::SetAttribute(i) => i.attribute is Some && i.csv_op is None && values_joinable(
            i.values,
        ),
        CmdModel::Remove(i) => i.attribute is None && i.csv_op is None && i.values.len() == 0,
        CmdModel::RemoveAttribute(i) => i.attribute is Some && i.csv_op is None && i.values.len()
            == 0,
        CmdModel::Comment(_) => true,
        CmdModel::NoOp => false,
        CmdModel::StartTag(_) => false,
        CmdModel::Unknown => false,
    }
}

/// Flattening leaves each canonical element name unchanged.
proof fn lemma_flat_canon()
    ensures
        flat_of("append"@) == "append"@,
        flat_of("insertafter"@) == "insertafter"@,
        flat_of("insertbefore"@) == "insertbefore"@,
        flat_of("csv"@) == "csv"@,
        flat_of("set"@) == "set"@,
        flat_of("setattribute"@) == "setattribute"@,
        flat_of("remove"@) == "remove"@,
        flat_of("removeattribute"@) == "removeattribute"@,
{
    reveal_strlit("append");
    reveal_strlit("insertafter");
    reveal_strlit("insertbefore");
    reveal_strlit("csv");
    reveal_strlit("set");
    reveal_strlit("setattribute");
    reveal_strlit("remove");
    reveal_strlit("removeattribute");
    assert forall|i: int| 0 <= i < "append"@.len() implies flat_fixed_char(#[trigger] "append"@[i])
    by {
        if i == 0 {
        } else if i == 1 {
        } else if i == 2 {
        } else if i == 3 {
        } else if i == 4 {
        } else {
            assert(i == 5);
        }
    }
    lemma_flat_of_fixed("append"@);
    assert forall|i: int|
        0 <= i < "insertafter"@.len() implies flat_fixed_char(#[trigger] "insertafter"@[i]) by {}
    lemma_flat_of_fixed("insertafter"@);
    assert forall|i: int|
        0 <= i < "insertbefore"@.len() implies flat_fixed_char(#[trigger] "insertbefore"@[i]) by {}
    lemma_flat_of_fixed("insertbefore"@);
    assert forall|i: int| 0 <= i < "csv"@.len() implies flat_fixed_char(#[trigger] "csv"@[i]) by {}
    lemma_flat_of_fixed("csv"@);
    assert forall|i: int| 0 <= i < "set"@.len() implies flat_fixed_char(#[trigger] "set"@[i]) by {}
    lemma_flat_of_fixed("set"@);
    assert forall|i: int|
        0 <= i < "setattribute"@.len() implies flat_fixed_char(#[trigger] "setattribute"@[i]) by {}
    lemma_flat_of_fixed("setattribute"@);
    assert forall|i: int|
        0 <= i < "remove"@.len() implies flat_fixed_char(#[trigger] "remove"@[i]) by {}
    lemma_flat_of_fixed("remove"@);
    assert forall|i: int|
        0 <= i < "removeattribute"@.len() implies flat_fixed_char(
            #[trigger] "removeattribute"@[i],
        ) by {}
    lemma_flat_of_fixed("removeattribute"@);
}

/// The canonical element names classify back to their own kinds.
pub proof fn lemma_classify_canon()
    ensures
        kind_of_name("append"@) == Kind::Append,
        kind_of_name("insertafter"@) == Kind::InsertAfter,
        kind_of_name("insertbefore"@) == Kind::InsertBefore,
        kind_of_name("csv"@) == Kind::Csv,
        kind_of_name("set"@) == Kind::SetValue,
        kind_of_name("setattribute"@) == Kind::SetAttribute,
        kind_of_name("remove"@) == Kind::Remove,
        kind_of_name("removeattribute"@) == Kind::RemoveAttribute,
{
    lemma_flat_canon();
    reveal_strlit("append");
    reveal_strlit("comment");
    reveal_strlit("csv");
    reveal_strlit("insertafter");
    reveal_strlit("insertbefore");
    reveal_strlit("noop");
    reveal_strlit("remove");
    reveal_strlit("removeattribute");
    reveal_strlit("set");
    reveal_strlit("setattribute");
    reveal_strlit("starttag");
}

/// The attribute names of the instruction language are pairwise distinct.
proof fn lemma_attr_keys_distinct()
    ensures
        "xpath"@ != "delim"@,
        "xpath"@ != "op"@,
        "xpath"@ != "name"@,
        "delim"@ != "op"@,
        "add"@ != "remove"@,
{
    reveal_strlit("xpath");
    reveal_strlit("delim");
    reveal_strlit("op");
    reveal_strlit("name");
    reveal_strlit("add");
    reveal_strlit("remove");
    assert("xpath"@[0] == 'x' && "delim"@[0] == 'd');
    assert("add"@.len() == 3);
    assert("remove"@.len() == 6);
}

/// Running the parser over one event.
proof fn lemma_pfold_one(st: PStateM, e: EvModel)
    ensures
        pfold(st, seq![e]) == (match pstep(st, e) {
            None => None::<(PStateM, Seq<CmdModel>)>,
            Some((s1, o1)) => Some((s1, o1)),
        }),
{
    reveal_with_fuel(pfold, 2);
    assert(seq![e][0] == e);
    assert(seq![e].drop_first() =~= Seq::<EvModel>::empty());
    match pstep(st, e) {
        None => {},
        Some((s1, o1)) => {
            assert(o1 + Seq::<CmdModel>::empty() =~= o1);
        },
    }
}

/// While a collection command is open, a replayable payload is captured
/// verbatim, event by event.
proof fn lemma_capture(w: Option<Seq<char>>, k: Kind, i0: InstModel, vs: Seq<EvModel>)
    requires
        crate::command::is_collection(k),
        payload_replayable(vs, k),
    ensures
        pfold(PStateM::Open { wrapper: w, kind: k, inst: i0 }, vs) == Some(
            (
                PStateM::Open {
                    wrapper: w,
                    kind: k,
                    inst: InstModel {
                        attribute: i0.attribute,
                        csv_op: i0.csv_op,
                        values: i0.values + vs,
                        xpath: i0.xpath,
                    },
                },
                Seq::<CmdModel>::empty(),
            ),
        ),
    decreases vs.len(),
{
    if vs.len() == 0 {
        assert(i0.values + vs =~= i0.values);
    } else {
        let e = vs[0];
        assert(!ev_closes(e, k));
        let i1 = crate::parser::inst_push(i0, e);
        assert(pstep(PStateM::Open { wrapper: w, kind: k, inst: i0 }, e) == Some(
            (PStateM::Open { wrapper: w, kind: k, inst: i1 }, Seq::<CmdModel>::empty()),
        ));
        assert forall|j: int| 0 <= j < vs.drop_first().len() implies !ev_closes(
            #[trigger] vs.drop_first()[j],
            k,
        ) by {
            assert(vs.drop_first()[j] == vs[j + 1]);
        }
        lemma_capture(w, k, i1, vs.drop_first());
        assert(i1.values + vs.drop_first() =~= i0.values + vs);
        assert(Seq::<CmdModel>::empty() + Seq::<CmdModel>::empty() =~= Seq::<
            CmdModel,
        >::empty());
    }
}

/// Parsing the canonical serialization of one faithful command, from a
/// scanning state, emits exactly that command and returns to the same
/// state.
proof fn lemma_parse_write_one(w: Option<Seq<char>>, c: CmdModel)
    requires
        rt_ok(c),
    ensures
        pfold(PStateM::Scan { wrapper: w }, wr_cmd(c)) == Some(
            (PStateM::Scan { wrapper: w }, seq![c]),
        ),
{
    lemma_classify_canon();
    lemma_attr_keys_distinct();
    let st0 = PStateM::Scan { wrapper: w };
    match c {
        CmdModel::Append(i) => {
            lemma_parse_write_coll(w, c, i, Kind::Append, "append"@);
        },
        CmdModel::InsertAfter(i) => {
            lemma_parse_write_coll(w, c, i, Kind::InsertAfter, "insertafter"@);
        },
        CmdModel::InsertBefore(i) => {
            lemma_parse_write_coll(w, c, i, Kind::InsertBefore, "insertbefore"@);
        },
        CmdModel::Csv(i) => {
            let attrs = seq![
                ("xpath"@, i.xpath),
                ("delim"@, crate::writer::delim_text(i.csv_op)),
                ("op"@, crate::writer::op_text(i.csv_op)),
            ];
            assert(attrs.drop_first() =~= seq![
                ("delim"@, crate::writer::delim_text(i.csv_op)),
                ("op"@, crate::writer::op_text(i.csv_op)),
            ]);
            assert(attrs.drop_first().drop_first() =~= seq![
                ("op"@, crate::writer::op_text(i.csv_op)),
            ]);
            reveal_with_fuel(attr_lookup, 4);
            assert(attr_lookup(attrs, "xpath"@) == Some(i.xpath));
            assert(attr_lookup(attrs, "delim"@) == Some(crate::writer::delim_text(i.csv_op)));
            assert(attr_lookup(attrs, "op"@) == Some(crate::writer::op_text(i.csv_op)));
            assert(build_inst(Kind::Csv, attrs) == Some(
                InstModel {
                    attribute: None,
                    csv_op: i.csv_op,
                    values: Seq::empty(),
                    xpath: i.xpath,
                },
            ));
            lemma_parse_write_text(w, c, i, Kind::Csv, "csv"@, attrs);
        },
        CmdModel::SetValue(i) => {
            let attrs = seq![("xpath"@, i.xpath)];
            reveal_with_fuel(attr_lookup, 2);
            assert(attr_lookup(attrs, "xpath"@) == Some(i.xpath));
            assert(build_inst(Kind::SetValue, attrs) == Some(
                InstModel {
                    attribute: None,
                    csv_op: None,
                    values: Seq::empty(),
                    xpath: i.xpath,
                },
            ));
            lemma_parse_write_text(w, c, i, Kind::SetValue, "set"@, attrs);
        },
        CmdModel::SetAttribute(i) => {
            let attrs = seq![("xpath"@, i.xpath), ("name"@, i.attribute->Some_0)];
            assert(attrs.drop_first() =~= seq![("name"@, i.attribute->Some_0)]);
            reveal_with_fuel(attr_lookup, 3);
            assert(attr_lookup(attrs, "xpath"@) == Some(i.xpath));
            assert(attr_lookup(attrs, "name"@) == Some(i.attribute->Some_0));
            assert(build_inst(Kind::SetAttribute, attrs) == Some(
                InstModel {
                    attribute: i.attribute,
                    csv_op: None,
                    values: Seq::empty(),
                    xpath: i.xpath,
                },
            ));
            assert(crate::writer::attr_or_empty(i.attribute) == i.attribute->Some_0);
            lemma_parse_write_text(w, c, i, Kind::SetAttribute, "setattribute"@, attrs);
        },
        CmdModel::Remove(i) => {
            let attrs = seq![("xpath"@, i.xpath)];
            reveal_with_fuel(attr_lookup, 2);
            assert(attr_lookup(attrs, "xpath"@) == Some(i.xpath));
            let e = EvModel::SelfClosed { name: "remove"@, attrs: attrs };
            lemma_pfold_one(st0, e);
            assert(build_inst(Kind::Remove, attrs) == Some(
                InstModel {
                    attribute: None,
                    csv_op: None,
                    values: Seq::empty(),
                    xpath: i.xpath,
                },
            ));
            assert(i =~= InstModel {
                attribute: None,
                csv_op: None,
                values: Seq::empty(),
                xpath: i.xpath,
            }) by {
                assert(i.values =~= Seq::<EvModel>::empty());
            }
            assert(wr_cmd(c) =~= seq![e]);
        },
        CmdModel::RemoveAttribute(i) => {
            let attrs = seq![("xpath"@, i.xpath), ("name"@, i.attribute->Some_0)];
            assert(attrs.drop_first() =~= seq![("name"@, i.attribute->Some_0)]);
            reveal_with_fuel(attr_lookup, 3);
            assert(attr_lookup(attrs, "xpath"@) == Some(i.xpath));
            assert(attr_lookup(attrs, "name"@) == Some(i.attribute->Some_0));
            assert(crate::writer::attr_or_empty(i.attribute) == i.attribute->Some_0);
            let e = EvModel::SelfClosed { name: "removeattribute"@, attrs: attrs };
            lemma_pfold_one(st0, e);
            assert(build_inst(Kind::RemoveAttribute, attrs) == Some(
                InstModel {
                    attribute: i.attribute,
                    csv_op: None,
                    values: Seq::empty(),
                    xpath: i.xpath,
                },
            ));
            assert(i =~= InstModel {
                attribute: i.attribute,
                csv_op: None,
                values: Seq::empty(),
                xpath: i.xpath,
            }) by {
                assert(i.values =~= Seq::<EvModel>::empty());
            }
            assert(wr_cmd(c) =~= seq![e]);
        },
        CmdModel::Comment(t) => {
            let e = EvModel::Comment { text: t };
            lemma_pfold_one(st0, e);
            assert(wr_cmd(c) =~= seq![e]);
        },
        _ => {},
    }
}

/// The collection case of `lemma_parse_write_one`.
proof fn lemma_parse_write_coll(w: Option<Seq<char>>, c: CmdModel, i: InstModel, k: Kind, name: Seq<char>)
    requires
        rt_ok(c),
        crate::command::is_collection(k),
        kind_of_name(name) == k,
        c == make_cmd(k, i),
        wr_cmd(c) == coll_events(name, i),
        payload_replayable(i.values, k),
        i.attribute is None,
        i.csv_op is None,
    ensures
        pfold(PStateM::Scan { wrapper: w }, wr_cmd(c)) == Some(
            (PStateM::Scan { wrapper: w }, seq![c]),
        ),
{
    lemma_attr_keys_distinct();
    let st0 = PStateM::Scan { wrapper: w };
    let attrs = seq![("xpath"@, i.xpath)];
    reveal_with_fuel(attr_lookup, 2);
    assert(attr_lookup(attrs, "xpath"@) == Some(i.xpath));
    let i0 = InstModel { attribute: None, csv_op: None, values: Seq::empty(), xpath: i.xpath };
    assert(build_inst(k, attrs) == Some(i0));
    let start = EvModel::Start { name: name, attrs: attrs };
    let endv = EvModel::End { name: name };
    let evs = wr_cmd(c);
    assert(evs == seq![start] + i.values + seq![endv]);
    let rest = i.values + seq![endv];
    assert(evs =~= seq![start] + rest);
    lemma_pfold_append(st0, seq![start], rest);
    lemma_pfold_one(st0, start);
    assert(pstep(st0, start) == Some(
        (PStateM::Open { wrapper: w, kind: k, inst: i0 }, Seq::<CmdModel>::empty()),
    ));
    let st1 = PStateM::Open { wrapper: w, kind: k, inst: i0 };
    lemma_pfold_append(st1, i.values, seq![endv]);
    lemma_capture(w, k, i0, i.values);
    let i2 = InstModel {
        attribute: i0.attribute,
        csv_op: i0.csv_op,
        values: i0.values + i.values,
        xpath: i0.xpath,
    };
    assert(i0.values + i.values =~= i.values);
    assert(i2 == InstModel {
        attribute: None,
        csv_op: None,
        values: i.values,
        xpath: i.xpath,
    });
    assert(i2 =~= i);
    let st2 = PStateM::Open { wrapper: w, kind: k, inst: i2 };
    lemma_pfold_one(st2, endv);
    assert(pstep(st2, endv) == Some((st0, seq![make_cmd(k, i2)])));
    assert(Seq::<CmdModel>::empty() + seq![c] =~= seq![c]);
}

/// The text-command case of `lemma_parse_write_one`: the start tag opens
/// the command with the given rebuilt payload, one optional text event
/// carries the joined body, and the end tag closes it.
proof fn lemma_parse_write_text(
    w: Option<Seq<char>>,
    c: CmdModel,
    i: InstModel,
    k: Kind,
    name: Seq<char>,
    attrs: Seq<AttrModel>,
)
    requires
        rt_ok(c),
        crate::command::is_text_kind(k),
        kind_of_name(name) == k,
        c == make_cmd(k, i),
        wr_cmd(c) == text_events(name, attrs, i.values),
        values_joinable(i.values),
        build_inst(k, attrs) == Some(
            InstModel {
                attribute: i.attribute,
                csv_op: i.csv_op,
                values: Seq::<EvModel>::empty(),
                xpath: i.xpath,
            },
        ),
    ensures
        pfold(PStateM::Scan { wrapper: w }, wr_cmd(c)) == Some(
            (PStateM::Scan { wrapper: w }, seq![c]),
        ),
{
    let st0 = PStateM::Scan { wrapper: w };
    let i0 = InstModel {
        attribute: i.attribute,
        csv_op: i.csv_op,
        values: Seq::<EvModel>::empty(),
        xpath: i.xpath,
    };
    let start = EvModel::Start { name: name, attrs: attrs };
    let endv = EvModel::End { name: name };
    let evs = wr_cmd(c);
    assert(pstep(st0, start) == Some(
        (PStateM::Open { wrapper: w, kind: k, inst: i0 }, Seq::<CmdModel>::empty()),
    ));
    let st1 = PStateM::Open { wrapper: w, kind: k, inst: i0 };
    if i.values.len() == 0 {
        assert(join_texts(i.values).len() == 0);
        assert(text_part(i.values) =~= Seq::<EvModel>::empty());
        assert(evs =~= seq![start] + seq![endv]);
        lemma_pfold_append(st0, seq![start], seq![endv]);
        lemma_pfold_one(st0, start);
        lemma_pfold_one(st1, endv);
        assert(i0 =~= i) by {
            assert(i.values =~= Seq::<EvModel>::empty());
        }
        assert(pstep(st1, endv) == Some((st0, seq![make_cmd(k, i0)])));
        assert(Seq::<CmdModel>::empty() + seq![c] =~= seq![c]);
    } else {
        let t = ev_text(i.values[0]);
        assert(i.values[0] == EvModel::Text { text: t }) by {
            match i.values[0] {
                EvModel::Text { text } => {},
                _ => {
                    assert(false);
                },
            }
        }
        assert(i.values =~= seq![EvModel::Text { text: t }]);
        assert(join_texts(i.values) == t) by {
            assert(i.values.drop_first() =~= Seq::<EvModel>::empty());
            assert(t + Seq::<char>::empty() =~= t);
        }
        let te = EvModel::Text { text: t };
        assert(text_part(i.values) =~= seq![te]);
        assert(evs =~= seq![start] + (seq![te] + seq![endv]));
        lemma_pfold_append(st0, seq![start], seq![te] + seq![endv]);
        lemma_pfold_one(st0, start);
        let i1 = crate::parser::inst_push(i0, te);
        assert(pstep(st1, te) == Some(
            (
                PStateM::Open { wrapper: w, kind: k, inst: i1 },
                Seq::<CmdModel>::empty(),
            ),
        ));
        let st2 = PStateM::Open { wrapper: w, kind: k, inst: i1 };
        assert(seq![te] + seq![endv] =~= seq![te].push(endv));
        crate::parser::lemma_pfold_push(st1, seq![te], endv);
        lemma_pfold_one(st1, te);
        assert(i1.values =~= i.values);
        assert(i1 =~= i);
        assert(pstep(st2, endv) == Some((st0, seq![make_cmd(k, i1)])));
        assert(Seq::<CmdModel>::empty() + seq![c] =~= seq![c]);
        assert(Seq::<CmdModel>::empty() + (Seq::<CmdModel>::empty() + seq![c]) =~= seq![c]);
    }
}

/// **Round trip.** Re-parsing the canonical serialization of a sequence of
/// faithful commands yields exactly that sequence (wrapper structure is
/// intentionally not reconstructed, since wrappers are never serialized).
pub proof fn lemma_round_trip(cs: Seq<CmdModel>)
    requires
        forall|i: int| 0 <= i < cs.len() ==> rt_ok(#[trigger] cs[i]),
    ensures
        parse_spec(wr_cmds(cs)) == Some(cs),
{
    lemma_round_trip_fold(cs);
}

proof fn lemma_round_trip_fold(cs: Seq<CmdModel>)
    requires
        forall|i: int| 0 <= i < cs.len() ==> rt_ok(#[trigger] cs[i]),
    ensures
        pfold(PStateM::Scan { wrapper: None }, wr_cmds(cs)) == Some(
            (PStateM::Scan { wrapper: None }, cs),
        ),
    decreases cs.len(),
{
    if cs.len() == 0 {
        assert(wr_cmds(cs) =~= Seq::<EvModel>::empty());
        assert(cs =~= Seq::<CmdModel>::empty());
    } else {
        let st0 = PStateM::Scan { wrapper: None };
        assert(wr_cmds(cs) == wr_cmd(cs[0]) + wr_cmds(cs.drop_first()));
        lemma_pfold_append(st0, wr_cmd(cs[0]), wr_cmds(cs.drop_first()));
        lemma_parse_write_one(None, cs[0]);
        assert forall|j: int| 0 <= j < cs.drop_first().len() implies rt_ok(
            #[trigger] cs.drop_first()[j],
        ) by {
            assert(cs.drop_first()[j] == cs[j + 1]);
        }
        lemma_round_trip_fold(cs.drop_first());
        assert(seq![cs[0]] + cs.drop_first() =~= cs);
    }
}


/// The shape the parser guarantees of every command it emits: required
/// attribute fields present, impossible ones absent, and a collection
/// payload that contains no closing tag of its own kind.
pub open spec fn parse_shape_ok(c: CmdModel) -> bool {
    match c {
        CmdModel::Append(i) => i.attribute is None && i.csv_op is None && payload_replayable(
            i.values,
            Kind::Append,
        ),
        CmdModel::InsertAfter(i) => i.attribute is None && i.csv_op is None && payload_replayable(
            i.values,
            Kind::InsertAfter,
        ),
        CmdModel::InsertBefore(i) => i.attribute is None && i.csv_op is None && payload_replayable(
            i.values,
            Kind::InsertBefore,
        ),
        CmdModel::Csv(i) => i.attribute is None && i.csv_op is Some,
        CmdModel::SetValue(i) => i.attribute is None && i.csv_op is None,
        CmdModel::SetAttribute(i) => i.attribute is Some && i.csv_op is None,
        CmdModel::Remove(i) => i.attribute is None && i.csv_op is None && i.values.len() == 0,
        CmdModel::RemoveAttribute(i) => i.attribute is Some && i.csv_op is None && i.values.len()
            == 0,
        CmdModel::Comment(_) => true,
        CmdModel::NoOp => false,
        CmdModel::StartTag(_) => false,
        CmdModel::Unknown => false,
    }
}

/// The invariant of an open command's partial payload.
pub open spec fn open_ok(k: Kind, inst: InstModel) -> bool {
    if crate::command::is_collection(k) {
        inst.attribute is None && inst.csv_op is None && payload_replayable(inst.values, k)
    } else if k == Kind::Csv {
        inst.attribute is None && inst.csv_op is Some
    } else if k == Kind::SetValue {
        inst.attribute is None && inst.csv_op is None
    } else if k == Kind::SetAttribute {
        inst.attribute is Some && inst.csv_op is None
    } else if k == Kind::Remove {
        inst.attribute is None && inst.csv_op is None && inst.values.len() == 0
    } else if k == Kind::RemoveAttribute {
        inst.attribute is Some && inst.csv_op is None && inst.values.len() == 0
    } else if k == Kind::CommentTag {
        inst.values.len() == 0
    } else {
        false
    }
}

/// The parser state invariant.
pub open spec fn state_ok(st: PStateM) -> bool {
    match st {
        PStateM::Scan { .. } => true,
        PStateM::Open { wrapper, kind, inst } => open_ok(kind, inst),
    }
}

/// A successfully read start-tag payload has the shape its kind requires
/// and an empty value list.
proof fn lemma_build_inst_shape(k: Kind, attrs: Seq<AttrModel>)
    requires
        build_inst(k, attrs) is Some,
        crate::command::is_operating(k),
    ensures
        open_ok(k, build_inst(k, attrs)->Some_0),
{
}

/// One transition from a well-shaped state leads to a well-shaped state
/// and emits only well-shaped commands.
proof fn lemma_pstep_shape(st: PStateM, ev: EvModel)
    requires
        state_ok(st),
        pstep(st, ev) is Some,
    ensures
        state_ok(pstep(st, ev)->Some_0.0),
        forall|i: int|
            0 <= i < pstep(st, ev)->Some_0.1.len() ==> parse_shape_ok(
                #[trigger] pstep(st, ev)->Some_0.1[i],
            ),
{
    match st {
        PStateM::Scan { wrapper } => {
            match ev {
                EvModel::Start { name, attrs } => {
                    let k = kind_of_name(name);
                    if crate::command::is_operating(k) {
                        lemma_build_inst_shape(k, attrs);
                    }
                },
                EvModel::SelfClosed { name, attrs } => {
                    let k = kind_of_name(name);
                    if (k == Kind::Remove || k == Kind::RemoveAttribute) && build_inst(k, attrs)
                        is Some {
                        lemma_build_inst_shape(k, attrs);
                    }
                },
                _ => {},
            }
        },
        PStateM::Open { wrapper, kind, inst } => {
            if crate::command::is_collection(kind) {
                match ev {
                    EvModel::End { name } => {
                        if kind_of_name(name) != kind {
                            lemma_capture_step(kind, inst, ev);
                        }
                    },
                    _ => {
                        lemma_capture_step(kind, inst, ev);
                    },
                }
            }
        },
    }
}

/// Capturing one non-closing event keeps the payload replayable.
proof fn lemma_capture_step(k: Kind, inst: InstModel, ev: EvModel)
    requires
        payload_replayable(inst.values, k),
        !ev_closes(ev, k),
    ensures
        payload_replayable(inst.values.push(ev), k),
{
    let vs = inst.values.push(ev);
    assert forall|j: int| 0 <= j < vs.len() implies !ev_closes(#[trigger] vs[j], k) by {
        if j < inst.values.len() {
            assert(vs[j] == inst.values[j]);
        } else {
            assert(vs[j] == ev);
        }
    }
}

/// Every command the parser emits from a well-shaped state is
/// well-shaped, and the state stays well-shaped.
proof fn lemma_pfold_shapes(st: PStateM, evs: Seq<EvModel>)
    requires
        state_ok(st),
    ensures
        match pfold(st, evs) {
            Some((st2, out)) => state_ok(st2) && (forall|i: int|
                0 <= i < out.len() ==> parse_shape_ok(#[trigger] out[i])),
            None => true,
        },
    decreases evs.len(),
{
    if evs.len() > 0 {
        match pstep(st, evs[0]) {
            None => {},
            Some((st1, o1)) => {
                lemma_pstep_shape(st, evs[0]);
                lemma_pfold_shapes(st1, evs.drop_first());
                match pfold(st1, evs.drop_first()) {
                    None => {},
                    Some((st2, o2)) => {
                        assert forall|i: int| 0 <= i < (o1 + o2).len() implies parse_shape_ok(
                            #[trigger] (o1 + o2)[i],
                        ) by {
                            if i < o1.len() {
                                assert((o1 + o2)[i] == o1[i]);
                            } else {
                                assert((o1 + o2)[i] == o2[i - o1.len()]);
                            }
                        }
                    },
                }
            },
        }
    }
}

/// A text command whose payload is canonical; any other command.
pub open spec fn cmd_joinable(c: CmdModel) -> bool {
    match c {
        CmdModel::Csv(inst) => values_joinable(inst.values),
        CmdModel::SetValue(inst) => values_joinable(inst.values),
        CmdModel::SetAttribute(inst) => values_joinable(inst.values),
        _ => true,
    }
}

/// Every text command in the sequence carries a canonical payload: at
/// most one non-empty text fragment.
pub open spec fn joinable_commands(cs: Seq<CmdModel>) -> bool {
    forall|i: int| 0 <= i < cs.len() ==> cmd_joinable(#[trigger] cs[i])
}

/// **Round trip over documents.** Re-parsing the serialization of any
/// document the parser accepts yields the same command sequence, as long
/// as each text command's payload arrived as one fragment (text split by
/// embedded comments is joined on output and not split again).
pub proof fn lemma_document_round_trip(evs: Seq<EvModel>)
    requires
        parse_spec(evs) is Some,
        joinable_commands(parse_spec(evs)->Some_0),
    ensures
        parse_spec(wr_cmds(parse_spec(evs)->Some_0)) == parse_spec(evs),
{
    let cs = parse_spec(evs)->Some_0;
    lemma_pfold_shapes(PStateM::Scan { wrapper: None }, evs);
    assert forall|i: int| 0 <= i < cs.len() implies rt_ok(#[trigger] cs[i]) by {
        assert(parse_shape_ok(cs[i]));
    }
    lemma_round_trip(cs);
}

} // verus!
