//! One modlet: its identity, its parsed instruction files, and its opaque
//! passthrough files, built from the files found under its directory.

use vstd::prelude::*;
use crate::events::{EvModel, XmlEvent, evs_model};
use crate::command::cmds_model;
use crate::modlet_xml::{ModletXML, parsed_commands};
use crate::parser::ParseError;
use crate::paths::{
    config_rel, ext_of, split_path, strs_model, under_config, under_config_exec,
};
use crate::text::str_eq;
use crate::writer::wr_cmds;

verus! {

/// Why a modlet failed to load.
#[derive(Debug, Clone, PartialEq)]
pub enum ModletError {
    /// The modlet has no `config` subtree.
    MissingConfigDirectory,
    /// One instruction file could not be parsed.
    InstructionFile { path: String, reason: ParseError },
}

/// One file found under a modlet's directory: its path relative to the
/// modlet root, and its byte content.
#[derive(Debug, Clone, PartialEq)]
pub struct FileEntry {
    pub path: String,
    pub content: Vec<u8>,
}

/// An instruction file: under the `config` subtree, with the `xml`
/// extension.
pub open spec fn is_xml_entry(p: Seq<char>) -> bool {
    under_config(split_path(p)) && ext_of(p) == "xml"@
}

/// A passthrough file: under the `config` subtree, with another included
/// extension.
pub open spec fn is_passthrough_entry(p: Seq<char>) -> bool {
    under_config(split_path(p)) && (ext_of(p) == "txt"@ || ext_of(p) == "dll"@)
}

/// The paths of a list of file entries.
pub open spec fn entry_paths(es: Seq<FileEntry>) -> Seq<Seq<char>> {
    es.map_values(|e: FileEntry| e.path@)
}

/// The passthrough paths a modlet carries, or nothing.
pub open spec fn files_model(f: Option<Vec<String>>) -> Seq<Seq<char>> {
    match f {
        None => Seq::empty(),
        Some(v) => strs_model(v@),
    }
}

/// The paths of a modlet's instruction files.
pub open spec fn xml_paths_of(xs: Seq<ModletXML>) -> Seq<Seq<char>> {
    xs.map_values(|x: ModletXML| x.path@)
}

/// The last component of a path: a modlet's name is the name of its
/// directory.
pub open spec fn path_name(s: Seq<char>) -> Seq<char> {
    split_path(s).last()
}

/// A modlet: identity, parsed instruction files, passthrough files.
#[derive(Debug, Clone, PartialEq)]
pub struct Modlet {
    pub files: Option<Vec<String>>,
    pub path: String,
    pub xmls: Vec<ModletXML>,
}

impl Modlet {
    /// Loads a modlet from the files under its directory. The `config`
    /// subtree must exist; instruction files are parsed and any single
    /// parse failure fails the whole load, naming the file; every other
    /// included file is recorded as an opaque passthrough file.
    pub fn new(path: String, config_exists: bool, entries: &Vec<FileEntry>) -> (r: Result<
        Modlet,
        ModletError,
    >)
        ensures
            match r {
                Ok(m) => {
                    &&& config_exists
                    &&& m.path == path
                    &&& xml_paths_of(m.xmls@) == entry_paths(entries@).filter(
                        |p: Seq<char>| is_xml_entry(p),
                    )
                    &&& forall|i: int|
                        0 <= i < m.xmls@.len() ==> parsed_commands(#[trigger] m.xmls@[i].commands@)
                    &&& files_model(m.files) == entry_paths(entries@).filter(
                        |p: Seq<char>| is_passthrough_entry(p),
                    )
                    &&& (m.files is Some ==> m.files->Some_0@.len() > 0)
                },
                Err(e) => match e {
                    ModletError::MissingConfigDirectory => !config_exists,
                    ModletError::InstructionFile { path: p, reason } => {
                        &&& config_exists
                        &&& entry_paths(entries@).contains(p@)
                        &&& is_xml_entry(p@)
                    },
                },
            },
    {
        if !config_exists {
            return Err(ModletError::MissingConfigDirectory);
        }
        let mut xmls: Vec<ModletXML> = Vec::new();
        let mut other: Vec<String> = Vec::new();
        let n = entries.len();
        proof {
            assert(entry_paths(entries@).take(0) =~~= Seq::<Seq<char>>::empty());
            reveal(Seq::filter);
        }
        for i in 0..n
            invariant
                config_exists,
                n == entries@.len(),
                xml_paths_of(xmls@) == entry_paths(entries@).take(i as int).filter(
                    |p: Seq<char>| is_xml_entry(p),
                ),
                forall|j: int|
                    0 <= j < xmls@.len() ==> parsed_commands(#[trigger] xmls@[j].commands@),
                strs_model(other@) == entry_paths(entries@).take(i as int).filter(
                    |p: Seq<char>| is_passthrough_entry(p),
                ),
        {
            let e = &entries[i];
            let under = under_config_exec(e.path.as_str());
            let ext = crate::paths::ext_exec(e.path.as_str());
            let ghost prefix = entry_paths(entries@).take(i as int);
            proof {
                reveal(Seq::filter);
                lemma_ext_literals_distinct();
                assert(entry_paths(entries@).take(i + 1) =~~= prefix.push(e.path@));
                assert(prefix.push(e.path@).drop_last() =~~= prefix);
                assert(prefix.push(e.path@).last() == e.path@);
            }
            if under && str_eq(ext.as_str(), "xml") {
                let x = ModletXML::new(e.path.clone());
                match x.load(e.content.as_slice()) {
                    Ok(loaded) => {
                        let ghost pre_xmls = xml_paths_of(xmls@);
                        xmls.push(loaded);
                        proof {
                            assert(xml_paths_of(xmls@) =~~= pre_xmls.push(e.path@));
                            assert(xml_paths_of(xmls@) =~~= entry_paths(entries@).take(i + 1)
                                .filter(|p: Seq<char>| is_xml_entry(p)));
                        }
                    },
                    Err(reason) => {
                        proof {
                            assert(entry_paths(entries@)[i as int] == e.path@);
                            assert(entry_paths(entries@).contains(e.path@));
                        }
                        return Err(
                            ModletError::InstructionFile { path: e.path.clone(), reason },
                        );
                    },
                }
            } else if under && (str_eq(ext.as_str(), "txt") || str_eq(ext.as_str(), "dll")) {
                let ghost pre_other = strs_model(other@);
                other.push(e.path.clone());
                proof {
                    assert(strs_model(other@) =~~= pre_other.push(e.path@));
                    assert(strs_model(other@) =~~= entry_paths(entries@).take(i + 1).filter(
                        |p: Seq<char>| is_passthrough_entry(p),
                    ));
                }
            } else {
                proof {
                    assert(xml_paths_of(xmls@) =~~= entry_paths(entries@).take(i + 1).filter(
                        |p: Seq<char>| is_xml_entry(p),
                    ));
                    assert(strs_model(other@) =~~= entry_paths(entries@).take(i + 1).filter(
                        |p: Seq<char>| is_passthrough_entry(p),
                    ));
                }
            }
        }
        proof {
            assert(entry_paths(entries@).take(n as int) =~~= entry_paths(entries@));
        }
        let files = if other.len() == 0 {
            None
        } else {
            Some(other)
        };
        proof {
            match files {
                None => {
                    assert(files_model(files) =~~= strs_model(other@));
                },
                Some(_) => {},
            }
        }
        Ok(Modlet { files, path, xmls })
    }

    /// The name of the modlet: the last component of its path.
    pub fn name(&self) -> (r: String)
        ensures
            r@ == path_name(self.path@),
    {
        let comps = crate::paths::split_path_exec(self.path.as_str());
        proof {
            crate::paths::lemma_split_path_len(self.path@);
        }
        let last = &comps[comps.len() - 1];
        last.clone()
    }

    /// The config-relative names of this modlet's instruction files.
    pub fn xml_files(&self) -> (r: Vec<String>)
        ensures
            strs_model(r@) == xml_filenames(self.xmls@),
    {
        let mut r: Vec<String> = Vec::new();
        let n = self.xmls.len();
        proof {
            assert(strs_model(r@) =~~= xml_filenames(self.xmls@.take(0)));
        }
        for i in 0..n
            invariant
                n == self.xmls@.len(),
                strs_model(r@) == xml_filenames(self.xmls@.take(i as int)),
        {
            let f = self.xmls[i].filename();
            let ghost pre = strs_model(r@);
            r.push(f);
            proof {
                assert(strs_model(r@) =~~= pre.push(config_rel(self.xmls@[i as int].path@)));
                assert(strs_model(r@) =~~= xml_filenames(self.xmls@.take(i + 1)));
            }
        }
        proof {
            assert(self.xmls@.take(n as int) =~= self.xmls@);
        }
        r
    }

    /// Appends the canonical markup events of every instruction file of
    /// this modlet whose config-relative name is the given one, in order.
    pub fn write_xmls(&self, out: &mut Vec<XmlEvent>, filename: &str)
        ensures
            evs_model(final(out)@) == evs_model(old(out)@) + xmls_events_for(
                self.xmls@,
                filename@,
            ),
    {
        let n = self.xmls.len();
        proof {
            assert(evs_model(out@) =~= evs_model(out@) + xmls_events_for(
                self.xmls@.take(0),
                filename@,
            ));
        }
        for i in 0..n
            invariant
                n == self.xmls@.len(),
                evs_model(out@) == evs_model(old(out)@) + xmls_events_for(
                    self.xmls@.take(i as int),
                    filename@,
                ),
        {
            let f = self.xmls[i].filename();
            if str_eq(f.as_str(), filename) {
                self.xmls[i].write(out);
            }
            proof {
                lemma_xmls_events_for_push(
                    self.xmls@.take(i as int),
                    self.xmls@[i as int],
                    filename@,
                );
                assert(self.xmls@.take(i + 1) =~= self.xmls@.take(i as int).push(
                    self.xmls@[i as int],
                ));
                assert(evs_model(out@) =~= evs_model(old(out)@) + xmls_events_for(
                    self.xmls@.take(i + 1),
                    filename@,
                ));
            }
        }
        proof {
            assert(self.xmls@.take(n as int) =~= self.xmls@);
        }
    }
}

/// The config-relative names of instruction files, in order.
pub open spec fn xml_filenames(xs: Seq<ModletXML>) -> Seq<Seq<char>> {
    xs.map_values(|x: ModletXML| config_rel(x.path@))
}

/// The canonical markup events of the instruction files whose
/// config-relative name matches, concatenated in file order.
pub open spec fn xmls_events_for(xs: Seq<ModletXML>, f: Seq<char>) -> Seq<EvModel>
    decreases xs.len(),
{
    if xs.len() == 0 {
        Seq::empty()
    } else {
        (if config_rel(xs[0].path@) == f {
            wr_cmds(cmds_model(xs[0].commands@))
        } else {
            Seq::empty()
        }) + xmls_events_for(xs.drop_first(), f)
    }
}

pub proof fn lemma_xmls_events_for_push(xs: Seq<ModletXML>, x: ModletXML, f: Seq<char>)
    ensures
        xmls_events_for(xs.push(x), f) == xmls_events_for(xs, f) + (if config_rel(x.path@) == f {
            wr_cmds(cmds_model(x.commands@))
        } else {
            Seq::<EvModel>::empty()
        }),
    decreases xs.len(),
{
    if xs.len() == 0 {
        reveal_with_fuel(xmls_events_for, 2);
        assert(xs.push(x)[0] == x);
        assert(xs.push(x).drop_first() =~= Seq::<ModletXML>::empty());
        assert(xmls_events_for(xs.push(x), f) =~= xmls_events_for(xs, f) + (if config_rel(x.path@)
            == f {
            wr_cmds(cmds_model(x.commands@))
        } else {
            Seq::<EvModel>::empty()
        }));
    } else {
        assert(xs.push(x)[0] == xs[0]);
        assert(xs.push(x).drop_first() =~= xs.drop_first().push(x));
        lemma_xmls_events_for_push(xs.drop_first(), x, f);
        assert(xmls_events_for(xs.push(x), f) =~= xmls_events_for(xs, f) + (if config_rel(x.path@)
            == f {
            wr_cmds(cmds_model(x.commands@))
        } else {
            Seq::<EvModel>::empty()
        }));
    }
}

/// The included file extensions are pairwise distinct names.
proof fn lemma_ext_literals_distinct()
    ensures
        "xml"@ != "txt"@,
        "xml"@ != "dll"@,
        "txt"@ != "dll"@,
{
    reveal_strlit("xml");
    reveal_strlit("txt");
    reveal_strlit("dll");
    assert("xml"@[0] == 'x' && "txt"@[0] == 't' && "dll"@[0] == 'd');
}

} // verus!
