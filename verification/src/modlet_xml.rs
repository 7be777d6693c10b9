//! One instruction file: its path and the command sequence parsed from it.

use vstd::prelude::*;
use crate::command::{Command, cmds_model};
use crate::events::{EvModel, XmlEvent, evs_model};
use crate::parser::{ParseError, parse_events, parse_spec};
use crate::paths::config_rel;
use crate::writer::{wr_cmds, write_commands};

verus! {

/// An instruction file of a modlet.
#[derive(Debug, Clone, PartialEq)]
pub struct ModletXML {
    pub commands: Vec<Command>,
    pub path: String,
}

/// The commands hold some valid parse of an instruction document.
pub open spec fn parsed_commands(cs: Seq<Command>) -> bool {
    exists|evs: Seq<EvModel>| parse_spec(evs) == Some(cmds_model(cs))
}

impl ModletXML {
    /// An instruction file that has not been loaded yet.
    pub fn new(path: String) -> (r: ModletXML)
        ensures
            r.path == path,
            r.commands@.len() == 0,
    {
        ModletXML { commands: Vec::new(), path }
    }

    /// Parses the file's byte content into its command sequence. The
    /// tokenization of the bytes is the markup library's; the translation
    /// of its events into commands is `parse_events`, which decides
    /// success exactly.
    pub fn load(self, content: &[u8]) -> (r: Result<ModletXML, ParseError>)
        ensures
            match r {
                Ok(m) => m.path == self.path && parsed_commands(m.commands@),
                Err(e) => e is MalformedInstruction || e is XmlSyntaxError,
            },
    {
        let events = match crate::xmlio::read_events(content) {
            Ok(evs) => evs,
            Err(e) => {
                return Err(e);
            },
        };
        match parse_events(&events) {
            Ok(commands) => {
                let r = ModletXML { commands, path: self.path };
                proof {
                    assert(parse_spec(evs_model(events@)) == Some(cmds_model(r.commands@)));
                }
                Ok(r)
            },
            Err(e) => Err(e),
        }
    }

    /// The file's path relative to the modlet's `config` subtree.
    pub fn filename(&self) -> (r: String)
        ensures
            r@ == config_rel(self.path@),
    {
        crate::paths::config_rel_exec(self.path.as_str())
    }

    /// Appends this file's canonical markup events to the output.
    pub fn write(&self, out: &mut Vec<XmlEvent>)
        ensures
            evs_model(final(out)@) == evs_model(old(out)@) + wr_cmds(cmds_model(self.commands@)),
    {
        write_commands(&self.commands, out);
    }
}

} // verus!
