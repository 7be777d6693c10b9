//! The instruction parser: a single forward scan over markup events that
//! keeps at most one open command (or one transparent wrapper) and emits an
//! ordered command sequence, or fails naming the offending construct.

use vstd::prelude::*;
use crate::command::{
    Command, CmdModel, CsvInstruction, InstModel, InstructionSet, Kind, classify, cmds_model,
    empty_inst, is_collection, is_operating, is_text_kind, join_texts, kind_of_name,
};
use crate::events::{
    Attr, AttrModel, EvModel, XmlEvent, attr_lookup, attrs_model, clone_event, evs_model,
    opt_str_model,
};
use crate::text::str_eq;

verus! {

/// Why a load failed: a parser state violation, or markup that is not
/// well-formed (with the byte offset the reader stopped at).
#[derive(Debug, Clone, Copy, PartialEq, Eq, Structural)]
pub enum ParseError {
    MalformedInstruction,
    XmlSyntaxError { offset: u64 },
}

/// The parser state: scanning (possibly inside a transparent wrapper), or
/// one open command.
pub enum PStateM {
    Scan { wrapper: Option<Seq<char>> },
    Open { wrapper: Option<Seq<char>>, kind: Kind, inst: InstModel },
}

/// The payload read from a start tag: `xpath` always; `delim` and `op` for
/// `csv`; `name` for `set_attribute` and `remove_attribute`. A missing
/// required attribute refuses the command.
pub open spec fn build_inst(k: Kind, attrs: Seq<AttrModel>) -> Option<InstModel> {
    match attr_lookup(attrs, "xpath"@) {
        None => None,
        Some(xp) => {
            if k == Kind::Csv {
                let d = match attr_lookup(attrs, "delim"@) {
                    None => Some(','),
                    Some(s) => if s.len() > 0 {
                        Some(s[0])
                    } else {
                        None
                    },
                };
                match d {
                    None => None,
                    Some(dc) => match attr_lookup(attrs, "op"@) {
                        Some(o) => if o == "add"@ {
                            Some(
                                InstModel {
                                    attribute: None,
                                    csv_op: Some(CsvInstruction::Add(dc)),
                                    values: Seq::empty(),
                                    xpath: xp,
                                },
                            )
                        } else if o == "remove"@ {
                            Some(
                                InstModel {
                                    attribute: None,
                                    csv_op: Some(CsvInstruction::Remove(dc)),
                                    values: Seq::empty(),
                                    xpath: xp,
                                },
                            )
                        } else {
                            None
                        },
                        None => None,
                    },
                }
            } else if k == Kind::SetAttribute || k == Kind::RemoveAttribute {
                match attr_lookup(attrs, "name"@) {
                    Some(a) => Some(
                        InstModel { attribute: Some(a), csv_op: None, values: Seq::empty(), xpath: xp },
                    ),
                    None => None,
                }
            } else {
                Some(InstModel { attribute: None, csv_op: None, values: Seq::empty(), xpath: xp })
            }
        },
    }
}

/// The finished command of an operating kind with its payload.
pub open spec fn make_cmd(k: Kind, i: InstModel) -> CmdModel {
    match k {
        Kind::Append => CmdModel::Append(i),
        Kind::InsertAfter => CmdModel::InsertAfter(i),
        Kind::InsertBefore => CmdModel::InsertBefore(i),
        Kind::Csv => CmdModel::Csv(i),
        Kind::SetValue => CmdModel::SetValue(i),
        Kind::SetAttribute => CmdModel::SetAttribute(i),
        Kind::Remove => CmdModel::Remove(i),
        Kind::RemoveAttribute => CmdModel::RemoveAttribute(i),
        _ => CmdModel::Unknown,
    }
}

/// The payload with one more captured event.
pub open spec fn inst_push(i: InstModel, e: EvModel) -> InstModel {
    InstModel { attribute: i.attribute, csv_op: i.csv_op, values: i.values.push(e), xpath: i.xpath }
}

/// One parser transition while no command is open.
pub open spec fn pstep_scan(w: Option<Seq<char>>, ev: EvModel) -> Option<(PStateM, Seq<CmdModel>)> {
    match ev {
        EvModel::Start { name, attrs } => {
            let k = kind_of_name(name);
            if is_operating(k) {
                match build_inst(k, attrs) {
                    Some(i) => Some((PStateM::Open { wrapper: w, kind: k, inst: i }, Seq::empty())),
                    None => None,
                }
            } else if k == Kind::CommentTag {
                Some(
                    (
                        PStateM::Open { wrapper: w, kind: Kind::CommentTag, inst: empty_inst() },
                        Seq::empty(),
                    ),
                )
            } else if k == Kind::NoOpTag || k == Kind::StartTagTag {
                Some((PStateM::Scan { wrapper: w }, Seq::empty()))
            } else if w is None {
                Some((PStateM::Scan { wrapper: Some(name) }, Seq::empty()))
            } else {
                None
            }
        },
        EvModel::SelfClosed { name, attrs } => {
            let k = kind_of_name(name);
            if k == Kind::Remove || k == Kind::RemoveAttribute {
                match build_inst(k, attrs) {
                    Some(i) => Some((PStateM::Scan { wrapper: w }, seq![make_cmd(k, i)])),
                    None => None,
                }
            } else {
                None
            }
        },
        EvModel::End { name } => {
            if w == Some(name) {
                Some((PStateM::Scan { wrapper: None }, Seq::empty()))
            } else {
                let k = kind_of_name(name);
                if k == Kind::NoOpTag || k == Kind::StartTagTag {
                    Some((PStateM::Scan { wrapper: w }, Seq::empty()))
                } else {
                    None
                }
            }
        },
        EvModel::Text { .. } => None,
        EvModel::Comment { text } => Some(
            (PStateM::Scan { wrapper: w }, seq![CmdModel::Comment(text)]),
        ),
    }
}

/// One parser transition while a command is open.
pub open spec fn pstep_open(
    w: Option<Seq<char>>,
    k: Kind,
    inst: InstModel,
    ev: EvModel,
) -> Option<(PStateM, Seq<CmdModel>)> {
    if is_collection(k) {
        match ev {
            EvModel::End { name } => if kind_of_name(name) == k {
                Some((PStateM::Scan { wrapper: w }, seq![make_cmd(k, inst)]))
            } else {
                Some(
                    (
                        PStateM::Open { wrapper: w, kind: k, inst: inst_push(inst, ev) },
                        Seq::empty(),
                    ),
                )
            },
            _ => Some(
                (PStateM::Open { wrapper: w, kind: k, inst: inst_push(inst, ev) }, Seq::empty()),
            ),
        }
    } else if is_text_kind(k) {
        match ev {
            EvModel::Text { text } => Some(
                (
                    PStateM::Open {
                        wrapper: w,
                        kind: k,
                        inst: inst_push(inst, EvModel::Text { text }),
                    },
                    Seq::empty(),
                ),
            ),
            EvModel::Comment { text } => Some(
                (
                    PStateM::Open {
                        wrapper: w,
                        kind: k,
                        inst: inst_push(inst, EvModel::Text { text }),
                    },
                    Seq::empty(),
                ),
            ),
            EvModel::End { name } => if kind_of_name(name) == k {
                Some((PStateM::Scan { wrapper: w }, seq![make_cmd(k, inst)]))
            } else {
                None
            },
            _ => None,
        }
    } else if k == Kind::CommentTag {
        match ev {
            EvModel::End { name } => if kind_of_name(name) == Kind::CommentTag {
                Some(
                    (PStateM::Scan { wrapper: w }, seq![CmdModel::Comment(join_texts(inst.values))]),
                )
            } else {
                None
            },
            _ => None,
        }
    } else {
        match ev {
            EvModel::End { name } => if kind_of_name(name) == k {
                Some((PStateM::Scan { wrapper: w }, seq![make_cmd(k, inst)]))
            } else {
                None
            },
            _ => None,
        }
    }
}

/// One parser transition.
pub open spec fn pstep(st: PStateM, ev: EvModel) -> Option<(PStateM, Seq<CmdModel>)> {
    match st {
        PStateM::Scan { wrapper } => pstep_scan(wrapper, ev),
        PStateM::Open { wrapper, kind, inst } => pstep_open(wrapper, kind, inst, ev),
    }
}

/// The parser run over an event sequence: final state and emitted commands.
pub open spec fn pfold(st: PStateM, evs: Seq<EvModel>) -> Option<(PStateM, Seq<CmdModel>)>
    decreases evs.len(),
{
    if evs.len() == 0 {
        Some((st, Seq::empty()))
    } else {
        match pstep(st, evs[0]) {
            None => None,
            Some((st1, o1)) => match pfold(st1, evs.drop_first()) {
                None => None,
                Some((st2, o2)) => Some((st2, o1 + o2)),
            },
        }
    }
}

/// The command sequence an instruction document denotes, or nothing when
/// the document violates the parser's state machine (a still-open command
/// or wrapper at the end of the document included).
pub open spec fn parse_spec(evs: Seq<EvModel>) -> Option<Seq<CmdModel>> {
    match pfold(PStateM::Scan { wrapper: None }, evs) {
        None => None,
        Some((st, out)) => if st == (PStateM::Scan { wrapper: None }) {
            Some(out)
        } else {
            None
        },
    }
}

pub proof fn lemma_pfold_append(st: PStateM, a: Seq<EvModel>, b: Seq<EvModel>)
    ensures
        pfold(st, a + b) == (match pfold(st, a) {
            None => None::<(PStateM, Seq<CmdModel>)>,
            Some((st1, o1)) => match pfold(st1, b) {
                None => None,
                Some((st2, o2)) => Some((st2, o1 + o2)),
            },
        }),
    decreases a.len(),
{
    if a.len() == 0 {
        assert(a + b =~= b);
        match pfold(st, b) {
            None => {},
            Some((st2, o2)) => {
                assert(Seq::<CmdModel>::empty() + o2 =~= o2);
            },
        }
    } else {
        assert((a + b)[0] == a[0]);
        match pstep(st, a[0]) {
            None => {},
            Some((st1, o1)) => {
                assert((a + b).drop_first() =~= a.drop_first() + b);
                lemma_pfold_append(st1, a.drop_first(), b);
                match pfold(st1, a.drop_first()) {
                    None => {},
                    Some((st2, o2)) => {
                        match pfold(st2, b) {
                            None => {},
                            Some((st3, o3)) => {
                                assert(o1 + (o2 + o3) =~= (o1 + o2) + o3);
                            },
                        }
                    },
                }
            },
        }
    }
}

pub proof fn lemma_pfold_push(st: PStateM, evs: Seq<EvModel>, e: EvModel)
    ensures
        pfold(st, evs.push(e)) == (match pfold(st, evs) {
            None => None::<(PStateM, Seq<CmdModel>)>,
            Some((st1, o1)) => match pstep(st1, e) {
                None => None,
                Some((st2, o2)) => Some((st2, o1 + o2)),
            },
        }),
{
    assert(evs.push(e) =~= evs + seq![e]);
    lemma_pfold_append(st, evs, seq![e]);
    assert(seq![e].drop_first() =~= Seq::<EvModel>::empty());
    match pfold(st, evs) {
        None => {},
        Some((st1, o1)) => {
            reveal_with_fuel(pfold, 2);
            match pstep(st1, e) {
                None => {},
                Some((st2, o2)) => {
                    assert(pfold(st1, seq![e]) == Some((st2, o2 + Seq::<CmdModel>::empty())));
                    assert(o2 + Seq::<CmdModel>::empty() =~= o2);
                },
            }
        },
    }
}

/// The model of the executable parser's working state.
pub open spec fn st_model(wrap: Option<String>, open: Option<(Kind, InstructionSet)>) -> PStateM {
    match open {
        None => PStateM::Scan { wrapper: opt_str_model(wrap) },
        Some((k, inst)) => PStateM::Open {
            wrapper: opt_str_model(wrap),
            kind: k,
            inst: inst.model(),
        },
    }
}

/// Parses one document's markup events into its command sequence.
///
/// Succeeds exactly on the documents the parser's state machine accepts;
/// every other document is refused as a `MalformedInstruction`.
pub fn parse_events(events: &Vec<XmlEvent>) -> (r: Result<Vec<Command>, ParseError>)
    ensures
        match r {
            Ok(cs) => parse_spec(evs_model(events@)) == Some(cmds_model(cs@)),
            Err(e) => parse_spec(evs_model(events@)) is None && e
                == ParseError::MalformedInstruction,
        },
{
    let mut out: Vec<Command> = Vec::new();
    let mut wrap: Option<String> = None;
    let mut open: Option<(Kind, InstructionSet)> = None;
    let n = events.len();
    proof {
        assert(evs_model(events@).take(0) =~= Seq::<EvModel>::empty());
        assert(cmds_model(out@) =~= Seq::<CmdModel>::empty());
    }
    for i in 0..n
        invariant
            n == events@.len(),
            pfold(PStateM::Scan { wrapper: None }, evs_model(events@).take(i as int)) == Some(
                (st_model(wrap, open), cmds_model(out@)),
            ),
    {
        let ghost pre_st = st_model(wrap, open);
        let ghost pre_out = cmds_model(out@);
        let ghost evm = events@[i as int].model();
        proof {
            lemma_pfold_push(
                PStateM::Scan { wrapper: None },
                evs_model(events@).take(i as int),
                evm,
            );
            assert(evs_model(events@).take(i + 1) =~= evs_model(events@).take(i as int).push(evm));
        }
        let ev = &events[i];
        match &open {
            None => {
                match ev {
                    XmlEvent::Start { name, attrs } => {
                        let k = classify(name.as_str());
                        if is_operating_exec(k) {
                            match build_inst_exec(k, attrs) {
                                Some(inst) => {
                                    open = Some((k, inst));
                                },
                                None => {
                                    proof {
                                        lemma_prefix_none(events@, i as int);
                                    }
                                    return Err(ParseError::MalformedInstruction);
                                },
                            }
                        } else if k == Kind::CommentTag {
                            let inst = InstructionSet::new();
                            open = Some((k, inst));
                        } else if k == Kind::NoOpTag || k == Kind::StartTagTag {
                            // transparent: no state change
                        } else {
                            if wrap.is_none() {
                                wrap = Some(name.clone());
                            } else {
                                proof {
                                    lemma_prefix_none(events@, i as int);
                                }
                                return Err(ParseError::MalformedInstruction);
                            }
                        }
                    },
                    XmlEvent::SelfClosed { name, attrs } => {
                        let k = classify(name.as_str());
                        if k == Kind::Remove || k == Kind::RemoveAttribute {
                            match build_inst_exec(k, attrs) {
                                Some(inst) => {
                                    let c = make_cmd_exec(k, inst);
                                    out.push(c);
                                    proof {
                                        assert(cmds_model(out@) =~= pre_out.push(c.model()));
                                        assert(pre_out.push(c.model()) =~= pre_out + seq![
                                            c.model(),
                                        ]);
                                    }
                                },
                                None => {
                                    proof {
                                        lemma_prefix_none(events@, i as int);
                                    }
                                    return Err(ParseError::MalformedInstruction);
                                },
                            }
                        } else {
                            proof {
                                lemma_prefix_none(events@, i as int);
                            }
                            return Err(ParseError::MalformedInstruction);
                        }
                    },
                    XmlEvent::End { name } => {
                        let mut wrap_closed = false;
                        match &wrap {
                            Some(w) => {
                                if str_eq(w.as_str(), name.as_str()) {
                                    wrap_closed = true;
                                }
                            },
                            None => {},
                        }
                        if wrap_closed {
                            wrap = None;
                        } else {
                            let k = classify(name.as_str());
                            if k == Kind::NoOpTag || k == Kind::StartTagTag {
                                // transparent: no state change
                            } else {
                                proof {
                                    lemma_prefix_none(events@, i as int);
                                }
                                return Err(ParseError::MalformedInstruction);
                            }
                        }
                    },
                    XmlEvent::Text { .. } => {
                        proof {
                            lemma_prefix_none(events@, i as int);
                        }
                        return Err(ParseError::MalformedInstruction);
                    },
                    XmlEvent::Comment { text } => {
                        let c = Command::Comment(text.clone());
                        out.push(c);
                        proof {
                            assert(cmds_model(out@) =~= pre_out.push(c.model()));
                            assert(pre_out.push(c.model()) =~= pre_out + seq![c.model()]);
                        }
                    },
                }
            },
            Some((k0, _)) => {
                let k = *k0;
                if is_collection_exec(k) {
                    let mut closes = false;
                    match ev {
                        XmlEvent::End { name } => {
                            let ke = classify(name.as_str());
                            if ke == k {
                                closes = true;
                            }
                        },
                        _ => {},
                    }
                    if closes {
                        let taken = take_open(&mut open);
                        let c = make_cmd_exec(k, taken);
                        out.push(c);
                        proof {
                            assert(cmds_model(out@) =~= pre_out.push(c.model()));
                            assert(pre_out.push(c.model()) =~= pre_out + seq![c.model()]);
                        }
                    } else {
                        let e = clone_event(ev);
                        push_open_value(&mut open, e);
                    }
                } else if is_text_kind_exec(k) {
                    match ev {
                        XmlEvent::Text { text } => {
                            let e = XmlEvent::Text { text: text.clone() };
                            push_open_value(&mut open, e);
                        },
                        XmlEvent::Comment { text } => {
                            let e = XmlEvent::Text { text: text.clone() };
                            push_open_value(&mut open, e);
                        },
                        XmlEvent::End { name } => {
                            let ke = classify(name.as_str());
                            if ke == k {
                                let taken = take_open(&mut open);
                                let c = make_cmd_exec(k, taken);
                                out.push(c);
                                proof {
                                    assert(cmds_model(out@) =~= pre_out.push(c.model()));
                                    assert(pre_out.push(c.model()) =~= pre_out + seq![c.model()]);
                                }
                            } else {
                                proof {
                                    lemma_prefix_none(events@, i as int);
                                }
                                return Err(ParseError::MalformedInstruction);
                            }
                        },
                        _ => {
                            proof {
                                lemma_prefix_none(events@, i as int);
                            }
                            return Err(ParseError::MalformedInstruction);
                        },
                    }
                } else if k == Kind::CommentTag {
                    match ev {
                        XmlEvent::End { name } => {
                            let ke = classify(name.as_str());
                            if ke == Kind::CommentTag {
                                let taken = take_open(&mut open);
                                let c = Command::Comment(crate::command::join_values(&taken.values));
                                out.push(c);
                                proof {
                                    assert(cmds_model(out@) =~= pre_out.push(c.model()));
                                    assert(pre_out.push(c.model()) =~= pre_out + seq![c.model()]);
                                }
                            } else {
                                proof {
                                    lemma_prefix_none(events@, i as int);
                                }
                                return Err(ParseError::MalformedInstruction);
                            }
                        },
                        _ => {
                            proof {
                                lemma_prefix_none(events@, i as int);
                            }
                            return Err(ParseError::MalformedInstruction);
                        },
                    }
                } else {
                    match ev {
                        XmlEvent::End { name } => {
                            let ke = classify(name.as_str());
                            if ke == k {
                                let taken = take_open(&mut open);
                                let c = make_cmd_exec(k, taken);
                                out.push(c);
                                proof {
                                    assert(cmds_model(out@) =~= pre_out.push(c.model()));
                                    assert(pre_out.push(c.model()) =~= pre_out + seq![c.model()]);
                                }
                            } else {
                                proof {
                                    lemma_prefix_none(events@, i as int);
                                }
                                return Err(ParseError::MalformedInstruction);
                            }
                        },
                        _ => {
                            proof {
                                lemma_prefix_none(events@, i as int);
                            }
                            return Err(ParseError::MalformedInstruction);
                        },
                    }
                }
            },
        }
        proof {
            assert(pre_out + Seq::<CmdModel>::empty() =~= pre_out);
            assert(pfold(PStateM::Scan { wrapper: None }, evs_model(events@).take(i + 1)) == Some(
                (st_model(wrap, open), cmds_model(out@)),
            ));
        }
    }
    proof {
        assert(evs_model(events@).take(n as int) =~= evs_model(events@));
    }
    match (&wrap, &open) {
        (None, None) => Ok(out),
        _ => Err(ParseError::MalformedInstruction),
    }
}

/// A prefix the state machine refuses refuses the whole document.
proof fn lemma_prefix_none(evs: Seq<XmlEvent>, j: int)
    requires
        0 <= j < evs.len(),
        pfold(PStateM::Scan { wrapper: None }, evs_model(evs).take(j + 1)) is None,
    ensures
        parse_spec(evs_model(evs)) is None,
{
    let m = evs_model(evs);
    assert(m =~= m.take(j + 1) + m.skip(j + 1));
    lemma_pfold_append(PStateM::Scan { wrapper: None }, m.take(j + 1), m.skip(j + 1));
}

fn is_operating_exec(k: Kind) -> (r: bool)
    ensures
        r == is_operating(k),
{
    match k {
        Kind::Append
        | Kind::InsertAfter
        | Kind::InsertBefore
        | Kind::Csv
        | Kind::SetValue
        | Kind::SetAttribute
        | Kind::Remove
        | Kind::RemoveAttribute => true,
        _ => false,
    }
}

fn is_collection_exec(k: Kind) -> (r: bool)
    ensures
        r == is_collection(k),
{
    match k {
        Kind::Append | Kind::InsertAfter | Kind::InsertBefore => true,
        _ => false,
    }
}

fn is_text_kind_exec(k: Kind) -> (r: bool)
    ensures
        r == is_text_kind(k),
{
    match k {
        Kind::Csv | Kind::SetValue | Kind::SetAttribute => true,
        _ => false,
    }
}

/// Takes the open command out, leaving the scanner idle.
fn take_open(open: &mut Option<(Kind, InstructionSet)>) -> (r: InstructionSet)
    requires
        (*old(open)) is Some,
    ensures
        r.model() == (*old(open))->Some_0.1.model(),
        (*final(open)) is None,
{
    let taken = open.take();
    match taken {
        Some((_, inst)) => inst,
        None => InstructionSet::new(),
    }
}

/// Captures one more payload event into the open command.
fn push_open_value(open: &mut Option<(Kind, InstructionSet)>, e: XmlEvent)
    requires
        (*old(open)) is Some,
    ensures
        (*final(open)) is Some,
        (*final(open))->Some_0.0 == (*old(open))->Some_0.0,
        (*final(open))->Some_0.1.model() == inst_push((*old(open))->Some_0.1.model(), e.model()),
{
    match open {
        Some((_, inst)) => {
            let ghost old_values = inst.values@;
            inst.values.push(e);
            proof {
                assert(evs_model(inst.values@) =~= evs_model(old_values).push(e.model()));
            }
        },
        None => {},
    }
}

/// Reads the payload from a start tag's attributes, as the open command's
/// kind requires.
fn build_inst_exec(k: Kind, attrs: &Vec<Attr>) -> (r: Option<InstructionSet>)
    ensures
        match r {
            Some(i) => build_inst(k, attrs_model(attrs@)) == Some(i.model()),
            None => build_inst(k, attrs_model(attrs@)) is None,
        },
{
    let xp = match crate::events::find_attr(attrs, "xpath") {
        Some(x) => x,
        None => {
            return None;
        },
    };
    if k == Kind::Csv {
        let delim: char = match crate::events::find_attr(attrs, "delim") {
            None => ',',
            Some(s) => {
                if s.as_str().unicode_len() > 0 {
                    s.as_str().get_char(0)
                } else {
                    return None;
                }
            },
        };
        match crate::events::find_attr(attrs, "op") {
            Some(o) => {
                if str_eq(o.as_str(), "add") {
                    let r = InstructionSet {
                        attribute: None,
                        csv_op: Some(CsvInstruction::Add(delim)),
                        values: Vec::new(),
                        xpath: xp,
                    };
                    proof {
                        assert(evs_model(r.values@) =~= Seq::<EvModel>::empty());
                    }
                    Some(r)
                } else if str_eq(o.as_str(), "remove") {
                    let r = InstructionSet {
                        attribute: None,
                        csv_op: Some(CsvInstruction::Remove(delim)),
                        values: Vec::new(),
                        xpath: xp,
                    };
                    proof {
                        assert(evs_model(r.values@) =~= Seq::<EvModel>::empty());
                    }
                    Some(r)
                } else {
                    None
                }
            },
            None => None,
        }
    } else if k == Kind::SetAttribute || k == Kind::RemoveAttribute {
        match crate::events::find_attr(attrs, "name") {
            Some(a) => {
                let r = InstructionSet {
                    attribute: Some(a),
                    csv_op: None,
                    values: Vec::new(),
                    xpath: xp,
                };
                proof {
                    assert(evs_model(r.values@) =~= Seq::<EvModel>::empty());
                }
                Some(r)
            },
            None => None,
        }
    } else {
        let r = InstructionSet { attribute: None, csv_op: None, values: Vec::new(), xpath: xp };
        proof {
            assert(evs_model(r.values@) =~= Seq::<EvModel>::empty());
        }
        Some(r)
    }
}

/// Builds the finished command of an operating kind.
fn make_cmd_exec(k: Kind, inst: InstructionSet) -> (r: Command)
    ensures
        r.model() == make_cmd(k, inst.model()),
{
    match k {
        Kind::Append => Command::Append(inst),
        Kind::InsertAfter => Command::InsertAfter(inst),
        Kind::InsertBefore => Command::InsertBefore(inst),
        Kind::Csv => Command::Csv(inst),
        Kind::SetValue => Command::SetValue(inst),
        Kind::SetAttribute => Command::SetAttribute(inst),
        Kind::Remove => Command::Remove(inst),
        Kind::RemoveAttribute => Command::RemoveAttribute(inst),
        _ => Command::Unknown,
    }
}

} // verus!
