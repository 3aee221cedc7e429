//! Path selection over JSON documents: a small expression language that
//! addresses values inside a document, a resolver that walks a document along
//! such a path, a combiner that reconciles the selected values into one
//! document, and a pretty-printer for the result.

pub mod args;
pub mod format;
pub mod join;
pub mod select;
pub mod value;

use crate::args::{Config, Join};
use crate::format::{format_json, formatted};
use crate::join::{combined, join_values, process_documents, selected_in_all};
use crate::select::token::Step;
use crate::value::{items_view, Json, Value};
use vstd::prelude::*;

verus! {

/// The text of one run: each path is resolved against each document, the
/// values found are combined in the order of the documents and, within a
/// document, of the paths, and the result is pretty-printed.
pub open spec fn output_of(
    documents: Seq<Json>,
    paths: Seq<Seq<Step>>,
    join: Join,
    indent: nat,
) -> Seq<char> {
    formatted(combined(selected_in_all(documents, paths), join), indent)
}

/// Runs the configured selection on documents that have been loaded, and
/// gives the text to print: one JSON document, without a new line at its
/// end. A run that selects nothing prints `null`.
pub fn render_documents(config: &Config, documents: &Vec<Value>) -> (text: String)
    ensures
        text@ == output_of(
            items_view(documents@),
            config.selects@,
            config.join,
            config.indent as nat,
        ),
        text@.len() > 0,
        text@.last() != '\n',
{
    let selected = process_documents(documents, &config.selects);
    let document = join_values(selected, config.join);
    format_json(&document, config.indent)
}

} // verus!
