//! Pretty-printing a document as JSON text.

use crate::value::{entries_view, items_view, lemma_array_view, lemma_object_view, Json, Value};
use vstd::prelude::*;
use vstd::string::*;

verus! {

/// The JSON text of a string: what `serde_json::to_string` returns for it,
/// with the quotes around it and its characters escaped.
pub uninterp spec fn json_string_text(s: Seq<char>) -> Seq<char>;

/// Calls `serde_json::to_string` on a string slice, and names what it
/// returns.
///
/// Its documentation gives two causes of failure, a `Serialize` impl that
/// fails and a map whose keys are not strings; a string slice has neither,
/// and the text is what is returned. The serializer writes a `"` before the
/// escaped characters and a `"` after them, which is all that the contract
/// says of the text itself.
#[verifier::external_body]
fn encode_string(s: &str) -> (text: String)
    ensures
        text@ == json_string_text(s@),
        text@.len() >= 2,
        text@.first() == '"',
        text@.last() == '"',
{
    serde_json::to_string(s).unwrap_or_default()
}

/// `n` spaces.
pub open spec fn spaces(n: nat) -> Seq<char> {
    Seq::new(n, |i: int| ' ')
}

/// The pretty-printed text of `value`, for a document whose lines are
/// indented by `pad` and whose nested lines take one more `unit` each.
///
/// A scalar is its JSON text, and an empty array or object is `[]` or `{}`.
/// Any other array or object opens its bracket, gives each element or entry
/// a line of its own at the next level of indentation, with a comma after
/// all but the last, and closes the bracket on a line at its own level. An
/// entry is its key, `: ` and its value. Entries stand in the order in which
/// the object holds them.
pub open spec fn pretty(value: Json, unit: Seq<char>, pad: Seq<char>) -> Seq<char>
    decreases value, 0nat,
{
    match value {
        Json::Null => seq!['n', 'u', 'l', 'l'],
        Json::Bool(b) => if b {
            seq!['t', 'r', 'u', 'e']
        } else {
            seq!['f', 'a', 'l', 's', 'e']
        },
        Json::Number(text) => text,
        Json::String(text) => json_string_text(text),
        Json::Array(items) => if items.len() == 0 {
            seq!['[', ']']
        } else {
            seq!['['] + pretty_items(items, items.len(), unit, pad + unit) + seq!['\n'] + pad
                + seq![']']
        },
        Json::Object(entries) => if entries.len() == 0 {
            seq!['{', '}']
        } else {
            seq!['{'] + pretty_entries(entries, entries.len(), unit, pad + unit) + seq!['\n']
                + pad + seq!['}']
        },
    }
}

/// What stands before an element or entry: a comma after the one before it,
/// if there is one, and a new line indented by `pad`.
pub open spec fn line_start(first: bool, pad: Seq<char>) -> Seq<char> {
    (if first {
        Seq::empty()
    } else {
        seq![',']
    }) + seq!['\n'] + pad
}

/// The lines of the first `count` elements of an array.
pub open spec fn pretty_items(items: Seq<Json>, count: nat, unit: Seq<char>, pad: Seq<char>) -> Seq<
    char,
>
    decreases items, count,
{
    if count == 0 || count > items.len() {
        Seq::empty()
    } else {
        pretty_items(items, (count - 1) as nat, unit, pad) + line_start(count == 1, pad) + pretty(
            items[count - 1],
            unit,
            pad,
        )
    }
}

/// The lines of the first `count` entries of an object.
pub open spec fn pretty_entries(
    entries: Seq<(Seq<char>, Json)>,
    count: nat,
    unit: Seq<char>,
    pad: Seq<char>,
) -> Seq<char>
    decreases entries, count,
{
    if count == 0 || count > entries.len() {
        Seq::empty()
    } else {
        pretty_entries(entries, (count - 1) as nat, unit, pad) + line_start(count == 1, pad)
            + json_string_text(entries[count - 1].0) + seq![':', ' '] + pretty(
            entries[count - 1].1,
            unit,
            pad,
        )
    }
}

/// The text of a document printed with `indent` spaces for each level of
/// nesting. It does not end in a new line.
pub open spec fn formatted(value: Json, indent: nat) -> Seq<char> {
    pretty(value, spaces(indent), Seq::empty())
}

/// Appends what starts the line of an element or entry.
fn write_line_start(out: &mut String, first: bool, pad: &str)
    ensures
        final(out)@ == old(out)@ + line_start(first, pad@),
{
    proof {
        reveal_strlit(",");
        reveal_strlit("\n");
    }
    if !first {
        out.append(",");
    }
    out.append("\n");
    out.append(pad);
}

/// Appends the pretty-printed text of `value`. But for a number, whose text
/// is taken as it is, something is appended, and it does not end in a new
/// line.
fn write_value(out: &mut String, value: &Value, unit: &str, pad: &str)
    ensures
        final(out)@ == old(out)@ + pretty(value@, unit@, pad@),
        !(value is Number) ==> pretty(value@, unit@, pad@).len() > 0 && pretty(
            value@,
            unit@,
            pad@,
        ).last() != '\n',
    decreases value,
{
    proof {
        reveal_strlit("null");
        reveal_strlit("true");
        reveal_strlit("false");
        reveal_strlit("[]");
        reveal_strlit("{}");
        reveal_strlit("[");
        reveal_strlit("]");
        reveal_strlit("{");
        reveal_strlit("}");
        reveal_strlit("\n");
    }
    match value {
        Value::Null => {
            out.append("null");
        },
        Value::Bool(b) => {
            if *b {
                out.append("true");
            } else {
                out.append("false");
            }
        },
        Value::Number(text) => {
            out.append(text.as_str());
        },
        Value::String(text) => {
            out.append(encode_string(text.as_str()).as_str());
        },
        Value::Array(items) => {
            proof {
                lemma_array_view(*items);
            }
            if items.len() == 0 {
                out.append("[]");
            } else {
                let mut inner = String::from_str(pad);
                inner.append(unit);
                out.append("[");
                let ghost models = items_view(items@);
                let mut i: usize = 0;
                while i < items.len()
                    invariant
                        i <= items.len(),
                        value is Array,
                        value->Array_0 == *items,
                        models == items_view(items@),
                        inner@ == pad@ + unit@,
                        out@ == old(out)@ + seq!['['] + pretty_items(
                            models,
                            i as nat,
                            unit@,
                            inner@,
                        ),
                    decreases items.len() - i,
                {
                    proof {
                        vstd::std_specs::vec::axiom_vec_index_decreases(*items, i as int);
                    }
                    write_line_start(out, i == 0, inner.as_str());
                    write_value(out, &items[i], unit, inner.as_str());
                    i += 1;
                }
                out.append("\n");
                out.append(pad);
                out.append("]");
            }
        },
        Value::Object(entries) => {
            proof {
                lemma_object_view(*entries);
            }
            if entries.len() == 0 {
                out.append("{}");
            } else {
                let mut inner = String::from_str(pad);
                inner.append(unit);
                out.append("{");
                let ghost models = entries_view(entries@);
                let mut i: usize = 0;
                while i < entries.len()
                    invariant
                        i <= entries.len(),
                        value is Object,
                        value->Object_0 == *entries,
                        models == entries_view(entries@),
                        inner@ == pad@ + unit@,
                        out@ == old(out)@ + seq!['{'] + pretty_entries(
                            models,
                            i as nat,
                            unit@,
                            inner@,
                        ),
                    decreases entries.len() - i,
                {
                    proof {
                        vstd::std_specs::vec::axiom_vec_index_decreases(*entries, i as int);
                        reveal_strlit(": ");
                    }
                    write_line_start(out, i == 0, inner.as_str());
                    out.append(encode_string(entries[i].0.as_str()).as_str());
                    out.append(": ");
                    write_value(out, &entries[i].1, unit, inner.as_str());
                    i += 1;
                }
                out.append("\n");
                out.append(pad);
                out.append("}");
            }
        },
    }
}

/// A string of `n` spaces.
fn indentation(n: usize) -> (unit: String)
    ensures
        unit@ == spaces(n as nat),
{
    let mut unit = String::new();
    let mut i: usize = 0;
    while i < n
        invariant
            i <= n,
            unit@ == spaces(i as nat),
        decreases n - i,
    {
        proof {
            reveal_strlit(" ");
        }
        unit.append(" ");
        i += 1;
    }
    unit
}

/// Pretty-prints a document with `indent` spaces for each level of nesting.
///
/// The keys of an object stand in the order in which the object holds them,
/// and the text does not end in a new line. A document that is a bare number
/// prints as the text that the number holds.
pub fn format_json(json_content: &Value, indent: usize) -> (text: String)
    ensures
        text@ == formatted(json_content@, indent as nat),
        !(json_content is Number) ==> text@.len() > 0 && text@.last() != '\n',
{
    proof {
        reveal_strlit("");
    }
    let unit = indentation(indent);
    let mut text = String::new();
    write_value(&mut text, json_content, unit.as_str(), "");
    text
}

} // verus!
