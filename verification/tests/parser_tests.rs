//! Tests of the instruction parser: classification, payload reading, the
//! transparent wrapper, and the failure cases.

use modlet::command::{Command, CsvInstruction, InstructionSet};
use modlet::modlet_xml::ModletXML;
use modlet::parser::ParseError;

fn parse_doc(doc: &str) -> Result<Vec<Command>, ParseError> {
    let xml = ModletXML::new(String::from("config/test.xml"));
    match xml.load(doc.as_bytes()) {
        Ok(m) => Ok(m.commands),
        Err(e) => Err(e),
    }
}

fn only(doc: &str) -> Command {
    let cmds = parse_doc(doc).expect("document should parse");
    assert_eq!(cmds.len(), 1, "expected exactly one command");
    cmds.into_iter().next().unwrap()
}

#[test]
fn set_command_parses() {
    match only(r#"<set xpath="//item/@value">5</set>"#) {
        Command::SetValue(is) => {
            assert_eq!(is.xpath, "//item/@value");
            assert_eq!(is.attribute, None);
            assert_eq!(is.csv_op, None);
            assert_eq!(is.values.len(), 1);
        }
        other => panic!("wrong command: {:?}", other),
    }
}

#[test]
fn csv_command_reads_delim_and_op() {
    match only(r#"<csv xpath="//item/@tags" op="add" delim=";">a;b</csv>"#) {
        Command::Csv(is) => {
            assert_eq!(is.csv_op, Some(CsvInstruction::Add(';')));
            assert_eq!(is.xpath, "//item/@tags");
        }
        other => panic!("wrong command: {:?}", other),
    }
}

#[test]
fn csv_delim_defaults_to_comma() {
    match only(r#"<csv xpath="//x" op="remove">v</csv>"#) {
        Command::Csv(is) => assert_eq!(is.csv_op, Some(CsvInstruction::Remove(','))),
        other => panic!("wrong command: {:?}", other),
    }
}

#[test]
fn csv_without_op_is_malformed() {
    assert_eq!(
        parse_doc(r#"<csv xpath="//x">v</csv>"#),
        Err(ParseError::MalformedInstruction)
    );
}

#[test]
fn missing_xpath_is_malformed() {
    assert_eq!(parse_doc(r#"<set>5</set>"#), Err(ParseError::MalformedInstruction));
}

#[test]
fn remove_self_closed_parses() {
    match only(r#"<remove xpath="//old"/>"#) {
        Command::Remove(is) => {
            assert_eq!(is.xpath, "//old");
            assert!(is.values.is_empty());
        }
        other => panic!("wrong command: {:?}", other),
    }
}

#[test]
fn remove_attribute_reads_name() {
    match only(r#"<remove_attribute xpath="//item" name="old"/>"#) {
        Command::RemoveAttribute(is) => {
            assert_eq!(is.attribute.as_deref(), Some("old"));
        }
        other => panic!("wrong command: {:?}", other),
    }
}

#[test]
fn set_attribute_reads_name() {
    match only(r#"<setAttribute xpath="//item" name="value">7</setAttribute>"#) {
        Command::SetAttribute(is) => {
            assert_eq!(is.attribute.as_deref(), Some("value"));
        }
        other => panic!("wrong command: {:?}", other),
    }
}

#[test]
fn names_are_case_and_separator_insensitive() {
    assert!(matches!(
        only(r#"<Insert_After xpath="//a"></Insert_After>"#),
        Command::InsertAfter(_)
    ));
    assert!(matches!(only(r#"<SET xpath="//a">1</SET>"#), Command::SetValue(_)));
    assert!(matches!(
        only(r#"<insertBefore xpath="//a"></insertBefore>"#),
        Command::InsertBefore(_)
    ));
}

#[test]
fn wrapper_element_is_transparent() {
    let cmds = parse_doc(
        r#"<configs>
             <set xpath="//a">1</set>
             <remove xpath="//b"/>
           </configs>"#,
    )
    .unwrap();
    assert_eq!(cmds.len(), 2);
    assert!(matches!(cmds[0], Command::SetValue(_)));
    assert!(matches!(cmds[1], Command::Remove(_)));
}

#[test]
fn append_captures_nested_markup_verbatim() {
    let cmds = parse_doc(
        r#"<append xpath="//items"><item name="x"><prop v="1"/>text</item></append>"#,
    )
    .unwrap();
    assert_eq!(cmds.len(), 1);
    match &cmds[0] {
        Command::Append(is) => {
            // start, self-closed, text, end: four captured events
            assert_eq!(is.values.len(), 4);
            assert_eq!(is.xpath, "//items");
        }
        other => panic!("wrong command: {:?}", other),
    }
}

#[test]
fn comment_is_emitted_in_document_order() {
    let cmds = parse_doc(r#"<top><!-- first --><set xpath="//a">1</set></top>"#).unwrap();
    assert_eq!(cmds.len(), 2);
    match &cmds[0] {
        Command::Comment(t) => assert_eq!(t, " first "),
        other => panic!("wrong command: {:?}", other),
    }
}

#[test]
fn text_outside_a_command_is_malformed() {
    assert_eq!(
        parse_doc(r#"<top>stray<set xpath="//a">1</set></top>"#),
        Err(ParseError::MalformedInstruction)
    );
}

#[test]
fn unclosed_command_is_malformed() {
    assert_eq!(parse_doc(r#"<set xpath="//a">"#), Err(ParseError::MalformedInstruction));
}

#[test]
fn ill_formed_markup_is_a_syntax_error() {
    match parse_doc(r#"<set xpath="//a">5</wrong>"#) {
        Err(ParseError::XmlSyntaxError { .. }) => {}
        other => panic!("expected a syntax error, got {:?}", other),
    }
}

#[test]
fn from_str_classifies_all_names() {
    assert!(matches!(Command::from_str("append"), Command::Append(_)));
    assert!(matches!(Command::from_str("comment"), Command::Comment(_)));
    assert!(matches!(Command::from_str("csv"), Command::Csv(_)));
    assert!(matches!(Command::from_str("insertAfter"), Command::InsertAfter(_)));
    assert!(matches!(Command::from_str("insert_before"), Command::InsertBefore(_)));
    assert!(matches!(Command::from_str("no_op"), Command::NoOp));
    assert!(matches!(Command::from_str("remove"), Command::Remove(_)));
    assert!(matches!(
        Command::from_str("removeAttribute"),
        Command::RemoveAttribute(_)
    ));
    assert!(matches!(Command::from_str("set"), Command::SetValue(_)));
    assert!(matches!(Command::from_str("setAttribute"), Command::SetAttribute(_)));
    assert!(matches!(Command::from_str("start_tag"), Command::StartTag(None)));
    assert!(matches!(Command::from_str("bogus"), Command::Unknown));
}

#[test]
fn set_replaces_the_payload_keeping_the_variant() {
    let mut is = InstructionSet::new();
    is.xpath = String::from("//x");
    let c = Command::from_str("remove").set(is);
    match c {
        Command::Remove(got) => assert_eq!(got.xpath, "//x"),
        other => panic!("wrong command: {:?}", other),
    }
}

#[test]
fn csv_instruction_accessors() {
    let add = CsvInstruction::Add(';');
    assert_eq!(*add.delim(), ';');
    assert_eq!(add.op(), "add");
    let rem = CsvInstruction::Remove(',');
    assert_eq!(*rem.delim(), ',');
    assert_eq!(rem.op(), "remove");
}

#[test]
fn flatten_lowercases_and_drops_separators() {
    assert_eq!(modlet::text::flatten("Insert_After"), "insertafter");
    assert_eq!(modlet::text::flatten("REMOVE-ATTRIBUTE"), "removeattribute");
    assert_eq!(modlet::text::flatten("csv"), "csv");
}
