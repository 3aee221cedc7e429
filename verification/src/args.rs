//! The configuration of one run.

use crate::select::token::{Step, Token};
use crate::select::{paths_of, texts_of, Select, Selects};
use vstd::prelude::*;
use vstd::string::*;

verus! {

/// How the selected values become one document.
#[derive(Debug, Copy, Clone, PartialEq, Eq, PartialOrd, Ord)]
pub enum Join {
    /// One object, with an entry for each value.
    Merge,
    /// One array, with an element for each value.
    Concat,
}

/// What one run works with.
#[derive(Debug)]
pub struct Config {
    /// The names of the documents to read, in order; `-` is standard input.
    pub files: Vec<String>,
    /// The paths to select in each document.
    pub selects: Selects,
    /// Filtering conditions. They are carried, and nothing reads them.
    pub filters: Vec<String>,
    /// How much to log, from 0 to 4.
    pub verbosity: usize,
    /// The number of spaces for each level of nesting in the output.
    pub indent: usize,
    /// How the selected values become one document.
    pub join: Join,
    /// Carried, and not read.
    pub expand: bool,
}

/// The documents of a run that names none: standard input alone.
pub open spec fn default_files() -> Seq<Seq<char>> {
    seq![seq!['-']]
}

/// The indentation of a run that names none.
pub open spec fn default_indent() -> nat {
    4
}

/// The paths of a run that names none: the single path `*`.
pub open spec fn default_paths() -> Seq<Seq<Step>> {
    seq![seq![Step::Any]]
}

impl Config {
    /// The configuration that the given options stand for.
    ///
    /// With `debug` the verbosity is 4, and else the given one, capped at
    /// 4. Where no document is named, standard input is read. Where no path
    /// is given, the single path `*` is selected. Where no indentation is
    /// given, it is 4; one that is given must be positive.
    pub fn new(
        files: Vec<String>,
        selects: Vec<Select>,
        filters: Vec<String>,
        indent: Option<i32>,
        debug: bool,
        verbosity: u8,
        join: Join,
        expand: bool,
    ) -> (config: Config)
        requires
            indent matches Some(width) ==> width >= 1,
        ensures
            files.len() > 0 ==> config.files == files,
            files.len() == 0 ==> texts_of(config.files@) == default_files(),
            config.filters == filters,
            config.join == join,
            config.expand == expand,
            config.verbosity == (if debug || verbosity >= 4 {
                4
            } else {
                verbosity as int
            }),
            config.indent == (match indent {
                Some(width) => width as nat,
                None => default_indent(),
            }),
            config.selects@ == (if selects.len() == 0 {
                default_paths()
            } else {
                paths_of(selects@)
            }),
    {
        let level: usize = if debug || verbosity >= 4 {
            4
        } else {
            verbosity as usize
        };
        let width: usize = match indent {
            Some(width) => width as usize,
            None => 4,
        };
        let chosen = if selects.len() == 0 {
            let mut fields: Vec<Token> = Vec::new();
            fields.push(Token::Any);
            let mut paths: Vec<Select> = Vec::new();
            let any = Select::from_tokens(fields);
            assert(any@ =~= seq![Step::Any]);
            paths.push(any);
            paths
        } else {
            selects
        };
        let named = if files.len() == 0 {
            proof {
                reveal_strlit("-");
            }
            let mut names: Vec<String> = Vec::new();
            names.push(String::from_str("-"));
            assert(names[0]@ =~= seq!['-']);
            assert(texts_of(names@) =~= default_files());
            names
        } else {
            files
        };
        Config {
            files: named,
            selects: Selects::new(chosen),
            filters,
            verbosity: level,
            indent: width,
            join,
            expand,
        }
    }
}

} // verus!
