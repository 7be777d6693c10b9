//! The instruction-language command model: the tagged command vocabulary,
//! its payload container, and the case/separator-insensitive classification
//! of element names into command kinds.

use vstd::prelude::*;
use crate::events::{EvModel, XmlEvent, evs_model};
use crate::text::{flat_of, flatten, str_eq};

verus! {

/// The command kind that an element name classifies into.
#[derive(Debug, Clone, Copy, PartialEq, Eq, Structural)]
pub enum Kind {
    Append,
    InsertAfter,
    InsertBefore,
    Csv,
    SetValue,
    SetAttribute,
    Remove,
    RemoveAttribute,
    CommentTag,
    NoOpTag,
    StartTagTag,
    Other,
}

/// Classification of an already-flattened name.
pub open spec fn kind_of_flat(f: Seq<char>) -> Kind {
    if f == "append"@ {
        Kind::Append
    } else if f == "comment"@ {
        Kind::CommentTag
    } else if f == "csv"@ {
        Kind::Csv
    } else if f == "insertafter"@ {
        Kind::InsertAfter
    } else if f == "insertbefore"@ {
        Kind::InsertBefore
    } else if f == "noop"@ {
        Kind::NoOpTag
    } else if f == "remove"@ {
        Kind::Remove
    } else if f == "removeattribute"@ {
        Kind::RemoveAttribute
    } else if f == "set"@ {
        Kind::SetValue
    } else if f == "setattribute"@ {
        Kind::SetAttribute
    } else if f == "starttag"@ {
        Kind::StartTagTag
    } else {
        Kind::Other
    }
}

/// Classification of a raw element name: case- and separator-insensitive.
pub open spec fn kind_of_name(s: Seq<char>) -> Kind {
    kind_of_flat(flat_of(s))
}

/// The kinds that carry an `InstructionSet` and operate on a target.
pub open spec fn is_operating(k: Kind) -> bool {
    match k {
        Kind::Append
        | Kind::InsertAfter
        | Kind::InsertBefore
        | Kind::Csv
        | Kind::SetValue
        | Kind::SetAttribute
        | Kind::Remove
        | Kind::RemoveAttribute => true,
        _ => false,
    }
}

/// The kinds whose payload is captured markup, replayed verbatim.
pub open spec fn is_collection(k: Kind) -> bool {
    match k {
        Kind::Append | Kind::InsertAfter | Kind::InsertBefore => true,
        _ => false,
    }
}

/// The kinds whose payload is text joined by commas.
pub open spec fn is_text_kind(k: Kind) -> bool {
    match k {
        Kind::Csv | Kind::SetValue | Kind::SetAttribute => true,
        _ => false,
    }
}

/// Executable classification, proved equal to `kind_of_name`.
pub fn classify(name: &str) -> (k: Kind)
    ensures
        k == kind_of_name(name@),
{
    let f = flatten(name);
    let fs = f.as_str();
    if str_eq(fs, "append") {
        Kind::Append
    } else if str_eq(fs, "comment") {
        Kind::CommentTag
    } else if str_eq(fs, "csv") {
        Kind::Csv
    } else if str_eq(fs, "insertafter") {
        Kind::InsertAfter
    } else if str_eq(fs, "insertbefore") {
        Kind::InsertBefore
    } else if str_eq(fs, "noop") {
        Kind::NoOpTag
    } else if str_eq(fs, "remove") {
        Kind::Remove
    } else if str_eq(fs, "removeattribute") {
        Kind::RemoveAttribute
    } else if str_eq(fs, "set") {
        Kind::SetValue
    } else if str_eq(fs, "setattribute") {
        Kind::SetAttribute
    } else if str_eq(fs, "starttag") {
        Kind::StartTagTag
    } else {
        Kind::Other
    }
}

/// The CSV operator of a `csv` command, with its delimiter.
#[derive(Debug, Clone, Copy, PartialEq, Eq, Structural)]
pub enum CsvInstruction {
    Add(char),
    Remove(char),
}

/// The delimiter a CSV operator carries.
pub open spec fn csv_delim(c: CsvInstruction) -> char {
    match c {
        CsvInstruction::Add(d) => d,
        CsvInstruction::Remove(d) => d,
    }
}

/// The serialized name of a CSV operator.
pub open spec fn csv_op_name(c: CsvInstruction) -> Seq<char> {
    match c {
        CsvInstruction::Add(_) => "add"@,
        CsvInstruction::Remove(_) => "remove"@,
    }
}

impl CsvInstruction {
    /// The delimiter character of this operator.
    pub fn delim(&self) -> (r: &char)
        ensures
            *r == csv_delim(*self),
    {
        match self {
            CsvInstruction::Add(delim) => delim,
            CsvInstruction::Remove(delim) => delim,
        }
    }

    /// The serialized operator name, `add` or `remove`.
    pub fn op(&self) -> (r: &str)
        ensures
            r@ == csv_op_name(*self),
    {
        match self {
            CsvInstruction::Add(_) => "add",
            CsvInstruction::Remove(_) => "remove",
        }
    }
}

/// Model of an instruction payload.
pub struct InstModel {
    pub attribute: Option<Seq<char>>,
    pub csv_op: Option<CsvInstruction>,
    pub values: Seq<EvModel>,
    pub xpath: Seq<char>,
}

/// The payload of an operating command: the xpath target, the optional
/// attribute name, the optional CSV operator, and the ordered payload.
#[derive(Debug, Clone, PartialEq)]
pub struct InstructionSet {
    pub attribute: Option<String>,
    pub csv_op: Option<CsvInstruction>,
    pub values: Vec<XmlEvent>,
    pub xpath: String,
}

/// The payload of a freshly opened command.
pub open spec fn empty_inst() -> InstModel {
    InstModel {
        attribute: None,
        csv_op: None,
        values: Seq::empty(),
        xpath: Seq::empty(),
    }
}

impl InstructionSet {
    pub open spec fn model(self) -> InstModel {
        InstModel {
            attribute: crate::events::opt_str_model(self.attribute),
            csv_op: self.csv_op,
            values: evs_model(self.values@),
            xpath: self.xpath@,
        }
    }

    /// A payload with no target, no attribute, no operator and no values.
    pub fn new() -> (r: InstructionSet)
        ensures
            r.model() == empty_inst(),
    {
        let r = InstructionSet {
            attribute: None,
            csv_op: None,
            values: Vec::new(),
            xpath: String::new(),
        };
        proof {
            assert(evs_model(r.values@) =~= Seq::<EvModel>::empty());
            assert(r.xpath@ =~= Seq::<char>::empty());
        }
        r
    }
}

/// One parsed instruction.
#[derive(Debug, Clone, PartialEq)]
pub enum Command {
    Append(InstructionSet),
    Comment(String),
    Csv(InstructionSet),
    InsertAfter(InstructionSet),
    InsertBefore(InstructionSet),
    NoOp,
    Remove(InstructionSet),
    RemoveAttribute(InstructionSet),
    SetValue(InstructionSet),
    SetAttribute(InstructionSet),
    StartTag(Option<String>),
    Unknown,
}

/// Model of a parsed instruction.
pub enum CmdModel {
    Append(InstModel),
    Comment(Seq<char>),
    Csv(InstModel),
    InsertAfter(InstModel),
    InsertBefore(InstModel),
    NoOp,
    Remove(InstModel),
    RemoveAttribute(InstModel),
    SetValue(InstModel),
    SetAttribute(InstModel),
    StartTag(Option<Seq<char>>),
    Unknown,
}

impl Command {
    pub open spec fn model(self) -> CmdModel {
        match self {
            Command::Append(i) => CmdModel::Append(i.model()),
            Command::Comment(t) => CmdModel::Comment(t@),
            Command::Csv(i) => CmdModel::Csv(i.model()),
            Command::InsertAfter(i) => CmdModel::InsertAfter(i.model()),
            Command::InsertBefore(i) => CmdModel::InsertBefore(i.model()),
            Command::NoOp => CmdModel::NoOp,
            Command::Remove(i) => CmdModel::Remove(i.model()),
            Command::RemoveAttribute(i) => CmdModel::RemoveAttribute(i.model()),
            Command::SetValue(i) => CmdModel::SetValue(i.model()),
            Command::SetAttribute(i) => CmdModel::SetAttribute(i.model()),
            Command::StartTag(n) => CmdModel::StartTag(crate::events::opt_str_model(n)),
            Command::Unknown => CmdModel::Unknown,
        }
    }
}

pub open spec fn cmds_model(cs: Seq<Command>) -> Seq<CmdModel> {
    cs.map_values(|c: Command| c.model())
}

/// The fresh command a classified element name opens.
pub open spec fn from_str_spec(s: Seq<char>) -> CmdModel {
    match kind_of_name(s) {
        Kind::Append => CmdModel::Append(empty_inst()),
        Kind::CommentTag => CmdModel::Comment(Seq::empty()),
        Kind::Csv => CmdModel::Csv(empty_inst()),
        Kind::InsertAfter => CmdModel::InsertAfter(empty_inst()),
        Kind::InsertBefore => CmdModel::InsertBefore(empty_inst()),
        Kind::NoOpTag => CmdModel::NoOp,
        Kind::Remove => CmdModel::Remove(empty_inst()),
        Kind::RemoveAttribute => CmdModel::RemoveAttribute(empty_inst()),
        Kind::SetValue => CmdModel::SetValue(empty_inst()),
        Kind::SetAttribute => CmdModel::SetAttribute(empty_inst()),
        Kind::StartTagTag => CmdModel::StartTag(None),
        Kind::Other => CmdModel::Unknown,
    }
}

/// The text content of a text payload event; other events contribute nothing.
pub open spec fn ev_text(e: EvModel) -> Seq<char> {
    match e {
        EvModel::Text { text } => text,
        _ => Seq::empty(),
    }
}

/// Payload values joined by `,` for serialization.
pub open spec fn join_texts(vs: Seq<EvModel>) -> Seq<char>
    decreases vs.len(),
{
    if vs.len() == 0 {
        Seq::empty()
    } else {
        ev_text(vs[0]) + join_tail(vs.drop_first())
    }
}

pub open spec fn join_tail(vs: Seq<EvModel>) -> Seq<char>
    decreases vs.len(),
{
    if vs.len() == 0 {
        Seq::empty()
    } else {
        seq![','] + ev_text(vs[0]) + join_tail(vs.drop_first())
    }
}

proof fn lemma_join_tail_push(vs: Seq<EvModel>, e: EvModel)
    ensures
        join_tail(vs.push(e)) == join_tail(vs) + seq![','] + ev_text(e),
    decreases vs.len(),
{
    if vs.len() == 0 {
        reveal_with_fuel(join_tail, 2);
        assert(vs.push(e)[0] == e);
        assert(vs.push(e).drop_first() =~= Seq::<EvModel>::empty());
        assert(join_tail(vs.push(e)) =~= join_tail(vs) + seq![','] + ev_text(e));
    } else {
        assert(vs.push(e)[0] == vs[0]);
        assert(vs.push(e).drop_first() =~= vs.drop_first().push(e));
        lemma_join_tail_push(vs.drop_first(), e);
        assert(join_tail(vs.push(e)) =~= join_tail(vs) + seq![','] + ev_text(e));
    }
}

pub proof fn lemma_join_texts_push(vs: Seq<EvModel>, e: EvModel)
    ensures
        join_texts(vs.push(e)) == if vs.len() == 0 {
            ev_text(e)
        } else {
            join_texts(vs) + seq![','] + ev_text(e)
        },
{
    if vs.len() == 0 {
        assert(vs.push(e)[0] == e);
        assert(vs.push(e).drop_first() =~= Seq::<EvModel>::empty());
        assert(join_texts(vs.push(e)) =~= ev_text(e));
    } else {
        assert(vs.push(e)[0] == vs[0]);
        assert(vs.push(e).drop_first() =~= vs.drop_first().push(e));
        lemma_join_tail_push(vs.drop_first(), e);
        assert(join_texts(vs.push(e)) =~= join_texts(vs) + seq![','] + ev_text(e));
    }
}

/// Joins the text content of payload values with `,`, as serialization does.
pub fn join_values(values: &Vec<XmlEvent>) -> (r: String)
    ensures
        r@ == join_texts(evs_model(values@)),
{
    let mut r = String::new();
    let n = values.len();
    proof {
        assert(evs_model(values@).take(0) =~= Seq::<EvModel>::empty());
    }
    for i in 0..n
        invariant
            n == values@.len(),
            r@ == join_texts(evs_model(values@).take(i as int)),
    {
        if i > 0 {
            r.append(",");
        }
        match &values[i] {
            XmlEvent::Text { text } => { r.append(text.as_str()) },
            _ => {},
        }
        proof {
            reveal_strlit(",");
            let pre = evs_model(values@).take(i as int);
            assert(pre.len() == i as int);
            lemma_join_texts_push(pre, values@[i as int].model());
            assert(evs_model(values@).take(i + 1) =~= pre.push(values@[i as int].model()));
            if i > 0 {
                assert(r@ =~= join_texts(evs_model(values@).take(i + 1)));
            } else {
                assert(r@ =~= join_texts(evs_model(values@).take(i + 1)));
            }
        }
    }
    proof {
        assert(evs_model(values@).take(n as int) =~= evs_model(values@));
    }
    r
}

/// The command that `Command::set` yields: the same variant carrying the
/// given payload; a comment takes the joined payload text.
pub open spec fn set_spec(c: CmdModel, i: InstModel) -> CmdModel {
    match c {
        CmdModel::Append(_) => CmdModel::Append(i),
        CmdModel::Comment(_) => CmdModel::Comment(join_texts(i.values)),
        CmdModel::Csv(_) => CmdModel::Csv(i),
        CmdModel::InsertAfter(_) => CmdModel::InsertAfter(i),
        CmdModel::InsertBefore(_) => CmdModel::InsertBefore(i),
        CmdModel::NoOp => CmdModel::NoOp,
        CmdModel::Remove(_) => CmdModel::Remove(i),
        CmdModel::RemoveAttribute(_) => CmdModel::RemoveAttribute(i),
        CmdModel::SetValue(_) => CmdModel::SetValue(i),
        CmdModel::SetAttribute(_) => CmdModel::SetAttribute(i),
        CmdModel::StartTag(_) => CmdModel::StartTag(None),
        CmdModel::Unknown => CmdModel::Unknown,
    }
}

impl Command {
    /// Opens a fresh command for an element name; unrecognized names give
    /// `Unknown`.
    pub fn from_str(input_str: &str) -> (r: Command)
        ensures
            r.model() == from_str_spec(input_str@),
    {
        match classify(input_str) {
            Kind::Append => Command::Append(InstructionSet::new()),
            Kind::CommentTag => Command::Comment(String::new()),
            Kind::Csv => Command::Csv(InstructionSet::new()),
            Kind::InsertAfter => Command::InsertAfter(InstructionSet::new()),
            Kind::InsertBefore => Command::InsertBefore(InstructionSet::new()),
            Kind::NoOpTag => Command::NoOp,
            Kind::Remove => Command::Remove(InstructionSet::new()),
            Kind::RemoveAttribute => Command::RemoveAttribute(InstructionSet::new()),
            Kind::SetValue => Command::SetValue(InstructionSet::new()),
            Kind::SetAttribute => Command::SetAttribute(InstructionSet::new()),
            Kind::StartTagTag => Command::StartTag(None),
            Kind::Other => Command::Unknown,
        }
    }

    /// Replaces the payload of this command, keeping its variant.
    pub fn set(self, instruction_set: InstructionSet) -> (r: Command)
        ensures
            r.model() == set_spec(self.model(), instruction_set.model()),
    {
        match self {
            Command::Append(_) => Command::Append(instruction_set),
            Command::Comment(_) => Command::Comment(join_values(&instruction_set.values)),
            Command::Csv(_) => Command::Csv(instruction_set),
            Command::InsertAfter(_) => Command::InsertAfter(instruction_set),
            Command::InsertBefore(_) => Command::InsertBefore(instruction_set),
            Command::NoOp => Command::NoOp,
            Command::Remove(_) => Command::Remove(instruction_set),
            Command::RemoveAttribute(_) => Command::RemoveAttribute(instruction_set),
            Command::SetValue(_) => Command::SetValue(instruction_set),
            Command::SetAttribute(_) => Command::SetAttribute(instruction_set),
            Command::StartTag(_) => Command::StartTag(None),
            Command::Unknown => Command::Unknown,
        }
    }
}

} // verus!
