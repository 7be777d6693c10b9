//! Tests of the package engine: loading, sorting, grouping, bundling,
//! isolation of failures, determinism, and the passthrough plan.

use modlet::localization::merge_localization;
use modlet::modlet::{FileEntry, Modlet, ModletError};
use modlet::package::{
    LoadOutcome, PassKind, file_map, package, plan_package, plan_passthrough, sort_modlets,
};
use modlet::xmlio::events_to_bytes;

fn entry(path: &str, content: &[u8]) -> FileEntry {
    FileEntry { path: String::from(path), content: content.to_vec() }
}

fn load_modlet(path: &str, entries: Vec<FileEntry>) -> Result<Modlet, ModletError> {
    Modlet::new(String::from(path), true, &entries)
}

fn outcome(path: &str, entries: Vec<FileEntry>) -> LoadOutcome {
    LoadOutcome {
        path: String::from(path),
        result: load_modlet(path, entries),
    }
}

fn mod_a() -> Vec<FileEntry> {
    vec![entry(
        "config/items.xml",
        br#"<set xpath="//item/@value">5</set>"#,
    )]
}

fn mod_b() -> Vec<FileEntry> {
    vec![entry(
        "config/items.xml",
        br#"<csv xpath="//item/@tags" op="add" delim=",">new</csv>"#,
    )]
}

#[test]
fn load_classifies_files() {
    let m = load_modlet(
        "mods/ModA",
        vec![
            entry("config/items.xml", br#"<remove xpath="//a"/>"#),
            entry("config/Localization.txt", b"Key,english\nA,B\n"),
            entry("config/notes.md", b"skipped"),
            entry("readme.txt", b"outside config: skipped"),
        ],
    )
    .unwrap();
    assert_eq!(m.name(), "ModA");
    assert_eq!(m.xmls.len(), 1);
    assert_eq!(m.xml_files(), vec![String::from("items.xml")]);
    assert_eq!(m.files, Some(vec![String::from("config/Localization.txt")]));
}

#[test]
fn load_without_config_fails() {
    let r = Modlet::new(String::from("ModA"), false, &vec![]);
    assert_eq!(r, Err(ModletError::MissingConfigDirectory));
}

#[test]
fn one_bad_file_fails_the_whole_modlet() {
    let r = load_modlet(
        "ModA",
        vec![
            entry("config/good.xml", br#"<remove xpath="//a"/>"#),
            entry("config/bad.xml", br#"stray text"#),
        ],
    );
    match r {
        Err(ModletError::InstructionFile { path, .. }) => {
            assert_eq!(path, "config/bad.xml");
        }
        other => panic!("expected an instruction-file error, got {:?}", other),
    }
}

#[test]
fn package_scenario_two_modlets_one_file() {
    // ModA sets a value; ModB adds a tag; both touch items.xml
    let plan = plan_package(vec![outcome("ModA", mod_a()), outcome("ModB", mod_b())]).unwrap();
    assert_eq!(plan.bundles.len(), 1);
    let (file, events) = &plan.bundles[0];
    assert_eq!(file, "items.xml");
    let expected = r#"<bundle><!-- Included from ModA --><set xpath="//item/@value">5</set><!-- Included from ModB --><csv xpath="//item/@tags" delim="," op="add">new</csv></bundle>"#;
    assert_eq!(events_to_bytes(events), expected.as_bytes().to_vec());
}

#[test]
fn bundle_comments_follow_name_order_not_load_order() {
    let doc = br#"<remove xpath="//x"/>"#;
    let mk = |name: &str| outcome(name, vec![entry("config/items.xml", doc)]);
    // loads finish in the order C, A, B
    let plan = plan_package(vec![mk("C"), mk("A"), mk("B")]).unwrap();
    let bytes = events_to_bytes(&plan.bundles[0].1);
    let text = String::from_utf8(bytes).unwrap();
    let pa = text.find("Included from A").unwrap();
    let pb = text.find("Included from B").unwrap();
    let pc = text.find("Included from C").unwrap();
    assert!(pa < pb && pb < pc);
}

#[test]
fn one_malformed_modlet_aborts_the_whole_run() {
    let bad = vec![entry("config/items.xml", b"<set xpath='//a'>" as &[u8])];
    let r = plan_package(vec![
        outcome("GoodA", mod_a()),
        outcome("Broken", bad.clone()),
        outcome("GoodB", mod_b()),
    ]);
    match r {
        Err(failure) => {
            assert_eq!(failure.failures.len(), 1);
            assert_eq!(failure.failures[0].0, "Broken");
        }
        Ok(_) => panic!("a failing load must abort the run"),
    }
    // the good modlets still load individually
    assert!(load_modlet("GoodA", mod_a()).is_ok());
    assert!(load_modlet("GoodB", mod_b()).is_ok());
    // and the bad one alone reports its file
    assert!(matches!(
        load_modlet("Broken", bad),
        Err(ModletError::InstructionFile { .. })
    ));
}

#[test]
fn packaging_is_deterministic_across_arrival_orders() {
    let plan1 = plan_package(vec![outcome("ModA", mod_a()), outcome("ModB", mod_b())]).unwrap();
    let plan2 = plan_package(vec![outcome("ModB", mod_b()), outcome("ModA", mod_a())]).unwrap();
    assert_eq!(plan1, plan2);
}

#[test]
fn sort_modlets_orders_by_name() {
    let m = |name: &str| load_modlet(name, mod_a()).unwrap();
    let sorted = sort_modlets(vec![m("zeta"), m("alpha"), m("milk")]);
    let names: Vec<String> = sorted.iter().map(|m| m.name()).collect();
    assert_eq!(names, vec!["alpha", "milk", "zeta"]);
}

#[test]
fn file_map_groups_by_path_in_order() {
    let a = load_modlet(
        "A",
        vec![
            entry("config/items.xml", br#"<remove xpath="//a"/>"#),
            entry("config/blocks.xml", br#"<remove xpath="//b"/>"#),
        ],
    )
    .unwrap();
    let b = load_modlet("B", vec![entry("config/items.xml", br#"<remove xpath="//c"/>"#)])
        .unwrap();
    let groups = file_map(&vec![a, b]);
    assert_eq!(groups.len(), 2);
    assert_eq!(groups[0].0, "blocks.xml");
    assert_eq!(groups[0].1, vec![0]);
    assert_eq!(groups[1].0, "items.xml");
    assert_eq!(groups[1].1, vec![0, 1]);
}

#[test]
fn package_wraps_contributions_in_a_bundle() {
    let a = load_modlet("A", mod_a()).unwrap();
    let evs = package(&vec![a], &vec![0], &String::from("items.xml"));
    let bytes = events_to_bytes(&evs);
    let text = String::from_utf8(bytes).unwrap();
    assert!(text.starts_with("<bundle>"));
    assert!(text.ends_with("</bundle>"));
}

#[test]
fn passthrough_plan_copies_then_appends_localization() {
    let a = load_modlet(
        "A",
        vec![
            entry("config/items.xml", br#"<remove xpath="//a"/>"#),
            entry("config/Localization.txt", b"Key,english\nA,B\n"),
            entry("config/extra.dll", b"\x00"),
        ],
    )
    .unwrap();
    let b = load_modlet(
        "B",
        vec![
            entry("config/Localization.txt", b"Key,english\nC,D\n"),
            entry("config/extra.dll", b"\x01"),
        ],
    )
    .unwrap();
    let actions = plan_passthrough(&vec![a, b]);
    assert_eq!(actions.len(), 4);
    assert_eq!(actions[0].modlet, 0);
    assert_eq!(actions[0].path, "config/Localization.txt");
    assert_eq!(actions[0].kind, PassKind::CopyNew);
    assert_eq!(actions[1].kind, PassKind::CopyNew);
    assert_eq!(actions[2].modlet, 1);
    assert_eq!(actions[2].path, "config/Localization.txt");
    assert_eq!(actions[2].kind, PassKind::AppendLocalization);
    assert_eq!(actions[3].path, "config/extra.dll");
    assert_eq!(actions[3].kind, PassKind::SkipDuplicate);
}

#[test]
fn merge_localization_strips_header_and_uses_crlf() {
    let existing = b"Key,english\r\nA,B\r\n".to_vec();
    let incoming = b"Key,english\nC,D\nE,F".to_vec();
    let merged = merge_localization(&existing, &incoming);
    assert_eq!(merged, b"Key,english\r\nA,B\r\nC,D\r\nE,F\r\n".to_vec());
}

#[test]
fn merge_localization_with_single_line_appends_nothing() {
    let existing = b"Key,english\r\n".to_vec();
    let incoming = b"Key,english".to_vec();
    let merged = merge_localization(&existing, &incoming);
    assert_eq!(merged, existing);
}

#[test]
fn merge_localization_strips_carriage_returns_of_incoming() {
    let existing = b"H\r\n".to_vec();
    let incoming = b"H\r\nA,B\r\n".to_vec();
    let merged = merge_localization(&existing, &incoming);
    assert_eq!(merged, b"H\r\nA,B\r\n".to_vec());
}
