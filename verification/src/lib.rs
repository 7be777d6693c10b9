//! Packaging of game "modlets": a small XML patch-instruction language is
//! parsed into a typed command model, re-serialized canonically, and the
//! instruction files of many modlets are merged deterministically into one
//! combined bundle.

pub mod cli;
pub mod command;
pub mod events;
pub mod localization;
pub mod modlet;
pub mod modlet_xml;
pub mod package;
pub mod parser;
pub mod paths;
pub mod roundtrip;
pub mod text;
pub mod writer;
pub mod xmlio;
