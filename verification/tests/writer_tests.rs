//! Tests of the instruction writer and the parse/serialize round trip.

use modlet::command::Command;
use modlet::events::XmlEvent;
use modlet::modlet_xml::ModletXML;
use modlet::writer::write_commands;
use modlet::xmlio::events_to_bytes;

fn parse_doc(doc: &str) -> Vec<Command> {
    ModletXML::new(String::from("config/t.xml"))
        .load(doc.as_bytes())
        .expect("document should parse")
        .commands
}

fn serialize(cmds: &Vec<Command>) -> Vec<u8> {
    let mut events: Vec<XmlEvent> = Vec::new();
    write_commands(cmds, &mut events);
    events_to_bytes(&events)
}

fn reparse(cmds: &Vec<Command>) -> Vec<Command> {
    let bytes = serialize(cmds);
    parse_doc(std::str::from_utf8(&bytes).unwrap())
}

#[test]
fn set_serializes_canonically() {
    let cmds = parse_doc(r#"<set xpath="//item/@value">5</set>"#);
    assert_eq!(serialize(&cmds), br#"<set xpath="//item/@value">5</set>"#.to_vec());
}

#[test]
fn csv_serializes_with_delim_and_op() {
    let cmds = parse_doc(r#"<csv xpath="//item/@tags" op="add" delim=",">new</csv>"#);
    assert_eq!(
        serialize(&cmds),
        br#"<csv xpath="//item/@tags" delim="," op="add">new</csv>"#.to_vec()
    );
}

#[test]
fn remove_serializes_self_closed() {
    let cmds = parse_doc(r#"<remove xpath="//old"/>"#);
    assert_eq!(serialize(&cmds), br#"<remove xpath="//old"/>"#.to_vec());
}

#[test]
fn remove_attribute_serializes_both_attributes() {
    let cmds = parse_doc(r#"<removeAttribute xpath="//item" name="old"/>"#);
    assert_eq!(
        serialize(&cmds),
        br#"<removeattribute xpath="//item" name="old"/>"#.to_vec()
    );
}

#[test]
fn round_trip_simple_document() {
    let cmds = parse_doc(
        r#"<cfg>
             <!-- keep -->
             <set xpath="//a">1,2</set>
             <csv xpath="//b" op="remove" delim=";">x</csv>
             <remove xpath="//c"/>
             <setAttribute xpath="//d" name="n">v</setAttribute>
           </cfg>"#,
    );
    assert_eq!(reparse(&cmds), cmds);
}

#[test]
fn round_trip_append_payload_is_opaque() {
    let doc = r#"<append xpath="//items"><item name="x"><prop v="1"/>t</item></append>"#;
    let cmds = parse_doc(doc);
    // the canonical output reproduces the captured markup unchanged
    assert_eq!(serialize(&cmds), doc.as_bytes().to_vec());
    assert_eq!(reparse(&cmds), cmds);
}

#[test]
fn round_trip_escapes_survive() {
    let doc = r#"<set xpath="//a">a&amp;b</set>"#;
    let cmds = parse_doc(doc);
    match &cmds[0] {
        Command::SetValue(is) => match &is.values[0] {
            XmlEvent::Text { text } => assert_eq!(text, "a&b"),
            other => panic!("wrong payload: {:?}", other),
        },
        other => panic!("wrong command: {:?}", other),
    }
    assert_eq!(serialize(&cmds), doc.as_bytes().to_vec());
    assert_eq!(reparse(&cmds), cmds);
}

#[test]
fn wrapper_is_not_reconstructed() {
    let cmds = parse_doc(r#"<config><set xpath="//a">1</set></config>"#);
    // re-parsing the serialization gives the same commands without any wrapper
    assert_eq!(serialize(&cmds), br#"<set xpath="//a">1</set>"#.to_vec());
    assert_eq!(reparse(&cmds), cmds);
}

#[test]
fn no_op_and_unknown_produce_no_output() {
    let cmds = vec![Command::NoOp, Command::Unknown, Command::StartTag(None)];
    assert_eq!(serialize(&cmds), Vec::<u8>::new());
}

#[test]
fn comment_round_trips() {
    let cmds = vec![Command::Comment(String::from(" note "))];
    assert_eq!(serialize(&cmds), b"<!-- note -->".to_vec());
    assert_eq!(reparse(&cmds), cmds);
}

#[test]
fn comment_inside_text_command_becomes_payload_text() {
    // the payload fragments are joined by commas on output
    let cmds = parse_doc(r#"<set xpath="//a">one<!--two-->three</set>"#);
    assert_eq!(
        serialize(&cmds),
        br#"<set xpath="//a">one,two,three</set>"#.to_vec()
    );
}

#[test]
fn empty_text_command_round_trips() {
    let doc = r#"<set xpath="//a"></set>"#;
    let cmds = parse_doc(doc);
    match &cmds[0] {
        Command::SetValue(is) => assert!(is.values.is_empty()),
        other => panic!("wrong command: {:?}", other),
    }
    assert_eq!(serialize(&cmds), doc.as_bytes().to_vec());
    assert_eq!(reparse(&cmds), cmds);
}

#[test]
fn comment_inside_append_is_captured_verbatim() {
    let doc = r#"<append xpath="//x"><!-- inner --><a/></append>"#;
    let cmds = parse_doc(doc);
    assert_eq!(serialize(&cmds), doc.as_bytes().to_vec());
    assert_eq!(reparse(&cmds), cmds);
}
