//! Tests of the command-line boundary values and path helpers.

use modlet::cli::{
    BumpOptions, Cli, CliError, CommandResult, Commands, Config, ModinfoVersion,
    RequestedVersion, Vers, bump_options, requested_version_to_modinfo_version,
    verify_modlet_paths,
};
use modlet::paths::{config_rel_exec, ext_exec};

#[test]
fn requested_version_defaults_to_v2() {
    assert_eq!(requested_version_to_modinfo_version(&None), ModinfoVersion::V2);
    let both_unset = RequestedVersion { v1: false, v2: false };
    assert_eq!(
        requested_version_to_modinfo_version(&Some(both_unset)),
        ModinfoVersion::V2
    );
}

#[test]
fn requested_version_v1_wins() {
    let v1 = RequestedVersion { v1: true, v2: false };
    assert_eq!(requested_version_to_modinfo_version(&Some(v1)), ModinfoVersion::V1);
    let v2 = RequestedVersion { v1: false, v2: true };
    assert_eq!(requested_version_to_modinfo_version(&Some(v2)), ModinfoVersion::V2);
}

#[test]
fn bump_options_explicit_version_wins() {
    let vers = Vers {
        ver: Some(String::from("5.6.7")),
        major: true,
        minor: true,
        patch: false,
    };
    assert_eq!(
        bump_options(1, &vers),
        vec![
            BumpOptions::Verbosity(1),
            BumpOptions::SetVersion(String::from("5.6.7"))
        ]
    );
}

#[test]
fn bump_options_flags_in_order() {
    let vers = Vers { ver: None, major: true, minor: false, patch: true };
    assert_eq!(
        bump_options(0, &vers),
        vec![
            BumpOptions::Verbosity(0),
            BumpOptions::Major,
            BumpOptions::Patch
        ]
    );
}

#[test]
fn verify_modlet_paths_keeps_the_valid_ones() {
    let checked = vec![
        (String::from("mods/A"), true),
        (String::from("mods/B"), false),
        (String::from("mods/C"), true),
    ];
    assert_eq!(
        verify_modlet_paths(&checked),
        Ok(vec![String::from("mods/A"), String::from("mods/C")])
    );
}

#[test]
fn verify_modlet_paths_rejects_when_none_valid() {
    let checked = vec![(String::from("mods/A"), false)];
    assert_eq!(verify_modlet_paths(&checked), Err(CliError::NoModletPath));
}

#[test]
fn default_config_and_result_are_empty() {
    let c = Config::default();
    assert_eq!(c.game_directory, None);
    assert_eq!(c.verbosity, 0);
    let r = CommandResult::default();
    assert!(r.errors.is_empty());
    assert!(r.messages.is_empty());
    assert_eq!(r.verbose, 0);
}

#[test]
fn config_relative_names_skip_to_the_config_subtree() {
    assert_eq!(config_rel_exec("mods/ModA/Config/items.xml"), "items.xml");
    assert_eq!(config_rel_exec("config/sub/dir/f.xml"), "sub/dir/f.xml");
    assert_eq!(config_rel_exec("elsewhere/f.xml"), "");
}

#[test]
fn extensions_are_lowercased_after_the_last_dot() {
    assert_eq!(ext_exec("config/items.XML"), "xml");
    assert_eq!(ext_exec("config/archive.tar.gz"), "gz");
    assert_eq!(ext_exec("config/.keep"), "");
    assert_eq!(ext_exec("config/noext"), "");
}

#[test]
fn parsed_command_line_round_trips_through_its_fields() {
    let cli = Cli {
        config: None,
        verbose: 2,
        game_directory: Some(String::from("game")),
        command: Commands::Package {
            output: String::from("Out"),
            modlets: vec![String::from("mods/A"), String::from("mods/B")],
        },
    };
    assert_eq!(cli.verbose, 2);
    match &cli.command {
        Commands::Package { output, modlets } => {
            assert_eq!(output, "Out");
            assert_eq!(modlets.len(), 2);
        }
        other => panic!("wrong command: {:?}", other),
    }
}
