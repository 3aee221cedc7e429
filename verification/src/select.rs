//! Selection paths and their resolution against a document.

pub mod token;

use crate::select::token::{
    lemma_segment_end_from, lemma_segment_text, parse, parse_from, parse_tokens, segment_end,
    steps_of, unambiguous, unambiguous_from, Step, Token,
};
use crate::value::{find_entry, lemma_object_view, lemma_position, lookup, Json, Value};
use vstd::prelude::*;
use vstd::string::*;

verus! {

/// The texts of `parts`, with `sep` between each two neighbours.
pub open spec fn joined(parts: Seq<Seq<char>>, sep: Seq<char>) -> Seq<char>
    decreases parts.len(),
{
    if parts.len() == 0 {
        Seq::empty()
    } else if parts.len() == 1 {
        parts[0]
    } else {
        parts[0] + sep + joined(parts.skip(1), sep)
    }
}

/// The characters of each string of a list.
pub open spec fn texts_of(parts: Seq<String>) -> Seq<Seq<char>> {
    Seq::new(parts.len(), |i: int| parts[i]@)
}

/// Calls `itertools::join` on the strings of `parts`.
///
/// The contract states what its documentation does: the result holds the
/// elements in order, each as it displays, with `sep` between each two. With
/// a separator of at most one character the capacity that `join` reserves
/// ahead, the separator's length times the number of elements left, stays
/// within what a string may hold.
#[verifier::external_body]
fn join_strings(parts: &Vec<String>, sep: &str) -> (text: String)
    requires
        sep@.len() <= 1,
    ensures
        text@ == joined(texts_of(parts@), sep@),
{
    itertools::join(parts, sep)
}

/// The canonical texts of the steps of a path.
pub open spec fn step_texts(path: Seq<Step>) -> Seq<Seq<char>> {
    Seq::new(path.len(), |i: int| path[i].text())
}

/// The canonical text of a path: the canonical text of each step, joined by
/// `.`.
pub open spec fn render(path: Seq<Step>) -> Seq<char> {
    joined(step_texts(path), seq!['.'])
}

/// The canonical text of the steps that an unambiguous expression spells from
/// `start` on is the expression from `start` on.
pub proof fn lemma_render_parse_from(s: Seq<char>, start: int)
    requires
        0 <= start <= s.len(),
        parse_from(s, start) is Ok,
        unambiguous_from(s, start),
    ensures
        parse_from(s, start)->Ok_0.len() > 0,
        render(parse_from(s, start)->Ok_0) == s.skip(start),
    decreases s.len() - start,
{
    lemma_segment_end_from(s, start, start);
    lemma_segment_text(s, start);
    let end = segment_end(s, start)->Some_0;
    let steps = parse_from(s, start)->Ok_0;
    assert(step_texts(steps)[0] == s.subrange(start, end));
    if end < s.len() {
        lemma_render_parse_from(s, end + 1);
        let rest = parse_from(s, end + 1)->Ok_0;
        assert(step_texts(steps).skip(1) =~= step_texts(rest));
        assert(s.skip(start) =~= s.subrange(start, end) + seq!['.'] + s.skip(end + 1));
    } else {
        assert(s.skip(start) =~= s.subrange(start, end));
    }
}

/// An unambiguous expression is the canonical text of the path that it
/// spells: reading it and writing the path again gives the expression back.
pub proof fn lemma_render_parse(s: Seq<char>)
    requires
        unambiguous(s),
    ensures
        render(parse(s)->Ok_0) == s,
{
    if s.len() > 0 {
        lemma_render_parse_from(s, 0);
        assert(s.skip(0) =~= s);
    }
}

/// The name that stands for "the whole document".
pub open spec fn whole_document() -> Seq<char> {
    seq!['.']
}

/// The name under which a path's value is stored when values are merged: the
/// canonical text of its last step, with its mark and its quotes if it has
/// any, or `whole_document()` for the empty path.
pub open spec fn terminal_name(path: Seq<Step>) -> Seq<char> {
    if path.len() == 0 {
        whole_document()
    } else {
        path.last().text()
    }
}

/// What one step makes of the value it is applied to, or `None` where the
/// value does not have the shape that the step asks for.
///
/// `[]` and `{}` assert a shape and stay where they are; `*` accepts an
/// array or an object and stays as well; a field moves into the entry of
/// that name, whether it is marked with `=` or not. No step fits a value
/// that is neither an array nor an object.
pub open spec fn descended(cursor: Json, step: Step) -> Option<Json> {
    match step {
        Step::Any => if cursor is Array || cursor is Object {
            Some(cursor)
        } else {
            None
        },
        Step::Array => if cursor is Array {
            Some(cursor)
        } else {
            None
        },
        Step::Object => if cursor is Object {
            Some(cursor)
        } else {
            None
        },
        Step::Field { name, .. } => match cursor {
            Json::Object(entries) => lookup(entries, name),
            _ => None,
        },
    }
}

/// The value that `path` selects in `document`: the steps are applied from
/// left to right, and the first that does not fit gives `Null`.
pub open spec fn resolved(document: Json, path: Seq<Step>) -> Json
    decreases path.len(),
{
    if path.len() == 0 {
        document
    } else {
        match descended(document, path[0]) {
            Some(next) => resolved(next, path.skip(1)),
            None => Json::Null,
        }
    }
}

/// What a path selects in a well-formed document is well-formed.
pub proof fn lemma_resolved_wf(document: Json, path: Seq<Step>)
    requires
        document.wf(),
    ensures
        resolved(document, path).wf(),
    decreases path.len(),
{
    if path.len() > 0 {
        if let Some(next) = descended(document, path[0]) {
            if let Step::Field { name, .. } = path[0] {
                lemma_position(document->Object_0, name);
            }
            lemma_resolved_wf(next, path.skip(1));
        }
    }
}

/// A selection path: the steps from the root of a document to a value in it.
/// The empty path selects the whole document.
#[derive(Debug, PartialEq, Eq)]
pub struct Select {
    fields: Vec<Token>,
}

impl View for Select {
    type V = Seq<Step>;

    closed spec fn view(&self) -> Seq<Step> {
        steps_of(self.fields@)
    }
}

impl Clone for Select {
    fn clone(&self) -> (copy: Self)
        ensures
            copy@ == self@,
            self.wf() ==> copy.wf(),
    {
        let mut fields: Vec<Token> = Vec::new();
        let mut i: usize = 0;
        while i < self.fields.len()
            invariant
                i <= self.fields.len(),
                fields.len() == i,
                forall|k: int| 0 <= k < i ==> fields[k]@ == self.fields[k]@,
            decreases self.fields.len() - i,
        {
            fields.push(self.fields[i].clone());
            i += 1;
        }
        Select { fields }
    }
}

impl Select {
    /// No field of the path has an empty name. Every path that this module
    /// makes is well-formed.
    pub open spec fn wf(&self) -> bool {
        forall|i: int| 0 <= i < self@.len() ==> (#[trigger] self@[i]).wf()
    }

    /// The path that `s` spells. The text must be a selection expression.
    pub fn new(s: &str) -> (path: Self)
        requires
            parse(s@) is Ok,
        ensures
            path@ == parse(s@)->Ok_0,
            path.wf(),
    {
        match parse_tokens(s) {
            Ok(fields) => Select { fields },
            Err(_) => Select { fields: Vec::new() },
        }
    }

    /// The path that `s` spells, as `new` gives it.
    pub fn from(s: &str) -> (path: Self)
        requires
            parse(s@) is Ok,
        ensures
            path@ == parse(s@)->Ok_0,
            path.wf(),
    {
        Select::new(s)
    }

    /// The path that `s` spells, or the message that says why it spells none.
    pub fn from_str(s: &str) -> (read: Result<Self, String>)
        ensures
            match parse(s@) {
                Ok(steps) => read matches Ok(path) && path@ == steps && path.wf(),
                Err(failure) => read matches Err(message) && message@
                    == "Error creating Select - "@ + failure.text_for(s@),
            },
    {
        match parse_tokens(s) {
            Ok(fields) => Ok(Select { fields }),
            Err(error) => {
                let mut message = String::from_str("Error creating Select - ");
                message.append(error.to_string().as_str());
                Err(message)
            },
        }
    }

    /// The path made of the given tokens, none of which may be a field with
    /// an empty name.
    pub fn from_tokens(fields: Vec<Token>) -> (path: Self)
        requires
            forall|i: int| 0 <= i < fields.len() ==> (#[trigger] fields[i])@.wf(),
        ensures
            path@ == steps_of(fields@),
            path.wf(),
    {
        Select { fields }
    }

    /// The tokens of the path, from the root down.
    pub fn tokens(&self) -> (fields: &Vec<Token>)
        ensures
            steps_of(fields@) == self@,
    {
        &self.fields
    }

    /// The steps of the path as they are written without quotes.
    pub fn collect(&self) -> (labels: Vec<String>)
        ensures
            labels.len() == self@.len(),
            forall|i: int| 0 <= i < labels.len() ==> labels[i]@ == self@[i].label(),
    {
        let mut labels: Vec<String> = Vec::new();
        let mut i: usize = 0;
        while i < self.fields.len()
            invariant
                i <= self.fields.len(),
                labels.len() == i,
                forall|k: int| 0 <= k < i ==> labels[k]@ == self.fields[k]@.label(),
            decreases self.fields.len() - i,
        {
            labels.push(self.fields[i].label());
            i += 1;
        }
        labels
    }

    /// The canonical text of the last step, or `None` for the empty path.
    pub fn name(&self) -> (last: Option<String>)
        ensures
            match last {
                Some(text) => self@.len() > 0 && text@ == self@.last().text(),
                None => self@.len() == 0,
            },
    {
        let n = self.fields.len();
        if n == 0 {
            None
        } else {
            Some(self.fields[n - 1].to_string())
        }
    }

    /// The name under which the path's value is stored when values are
    /// merged.
    pub fn terminal_name(&self) -> (name: String)
        ensures
            name@ == terminal_name(self@),
    {
        match self.name() {
            Some(text) => text,
            None => {
                proof {
                    reveal_strlit(".");
                }
                String::from_str(".")
            },
        }
    }

    /// The canonical text of the path.
    pub fn to_string(&self) -> (text: String)
        ensures
            text@ == render(self@),
    {
        let mut texts: Vec<String> = Vec::new();
        let mut i: usize = 0;
        while i < self.fields.len()
            invariant
                i <= self.fields.len(),
                texts.len() == i,
                forall|k: int| 0 <= k < i ==> texts[k]@ == self.fields[k]@.text(),
            decreases self.fields.len() - i,
        {
            texts.push(self.fields[i].to_string());
            i += 1;
        }
        proof {
            reveal_strlit(".");
            assert("."@ =~= seq!['.']);
            assert(texts_of(texts@) =~= step_texts(self@));
        }
        join_strings(&texts, ".")
    }
}

/// The paths that one run asks for, in the order in which they were given.
#[derive(Debug, PartialEq, Eq)]
pub struct Selects(pub Vec<Select>);

/// The models of a list of paths.
pub open spec fn paths_of(selects: Seq<Select>) -> Seq<Seq<Step>> {
    Seq::new(selects.len(), |i: int| selects[i]@)
}

impl View for Selects {
    type V = Seq<Seq<Step>>;

    open spec fn view(&self) -> Seq<Seq<Step>> {
        paths_of(self.0@)
    }
}

impl Selects {
    /// The given paths, in their order.
    pub fn new(v: Vec<Select>) -> (selects: Self)
        ensures
            selects.0 == v,
    {
        Selects(v)
    }
}

/// The model of a selected value: what was found, and the path that found it.
pub struct Selected {
    pub value: Json,
    pub path: Seq<Step>,
}

/// The value that one path selects in one document, with the path.
#[derive(Debug)]
pub struct SelectedValue {
    pub value: Value,
    pub path: Select,
}

impl View for SelectedValue {
    type V = Selected;

    open spec fn view(&self) -> Selected {
        Selected { value: self.value@, path: self.path@ }
    }
}

/// Applies one step to `cursor`: the value that the walk goes on with, or
/// `None` where the step does not fit.
pub fn descend<'a>(cursor: &'a Value, token: &Token) -> (next: Option<&'a Value>)
    ensures
        match descended(cursor@, token@) {
            Some(value) => next matches Some(found) && found@ == value,
            None => next is None,
        },
{
    match token {
        Token::Any => match cursor {
            Value::Array(_) => Some(cursor),
            Value::Object(_) => Some(cursor),
            _ => None,
        },
        Token::Array => match cursor {
            Value::Array(_) => Some(cursor),
            _ => None,
        },
        Token::Object => match cursor {
            Value::Object(_) => Some(cursor),
            _ => None,
        },
        Token::Field { name, .. } => match cursor {
            Value::Object(entries) => {
                proof {
                    lemma_object_view(*entries);
                }
                let at = find_entry(entries, name);
                if at < entries.len() {
                    Some(&entries[at].1)
                } else {
                    None
                }
            },
            _ => None,
        },
    }
}

impl SelectedValue {
    /// Resolves `path` against the document `value`.
    ///
    /// The steps are applied from left to right. A step that does not fit
    /// the value it meets ends the walk with `Null`; this is no error.
    pub fn new(value: Value, path: Select) -> (selected: Self)
        ensures
            selected.path@ == path@,
            selected.value@ == resolved(value@, path@),
            value.wf() ==> selected.value.wf(),
    {
        proof {
            if value.wf() {
                lemma_resolved_wf(value@, path@);
            }
        }
        let mut cursor: &Value = &value;
        let mut i: usize = 0;
        let n = path.fields.len();
        assert(path@.skip(0) =~= path@);
        while i < n
            invariant
                i <= n,
                n == path.fields.len(),
                resolved(value@, path@) == resolved(cursor@, path@.skip(i as int)),
            decreases n - i,
        {
            proof {
                assert(path@.skip(i as int).skip(1) =~= path@.skip(i + 1));
            }
            match descend(cursor, &path.fields[i]) {
                Some(next) => {
                    cursor = next;
                },
                None => {
                    return SelectedValue { value: Value::Null, path };
                },
            }
            i += 1;
        }
        let found = cursor.clone();
        SelectedValue { value: found, path }
    }
}

} // verus!
