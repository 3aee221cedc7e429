//! Reconciling the values that were selected into one document.

use crate::args::Join;
use crate::select::token::Step;
use crate::select::{resolved, terminal_name, Selected, SelectedValue, Selects};
use crate::value::{
    distinct_keys, entries_view, insert_entry, inserted, items_view, lemma_array_view,
    lemma_inserted_distinct, lemma_inserted_lookup, lemma_object_view, lemma_position, lookup,
    Json, Value,
};
use vstd::prelude::*;

verus! {

/// The models of a list of selected values.
pub open spec fn selected_view(items: Seq<SelectedValue>) -> Seq<Selected> {
    Seq::new(items.len(), |i: int| items[i]@)
}

/// Whether merging takes the entries of the item's value one by one: the
/// item selects the whole document, and that document is an object.
pub open spec fn is_spliced(item: Selected) -> bool {
    item.path.len() == 0 && item.value is Object
}

/// `acc` after each entry of `entries` is set in it, in order.
pub open spec fn spliced(
    acc: Seq<(Seq<char>, Json)>,
    entries: Seq<(Seq<char>, Json)>,
) -> Seq<(Seq<char>, Json)>
    decreases entries.len(),
{
    if entries.len() == 0 {
        acc
    } else {
        inserted(spliced(acc, entries.drop_last()), entries.last().0, entries.last().1)
    }
}

/// `acc` after one item is merged into it: a whole document that is an
/// object gives its entries, any other value is set under the terminal name
/// of its path. An entry set later replaces the value of an earlier one with
/// the same key.
pub open spec fn merged_with(acc: Seq<(Seq<char>, Json)>, item: Selected) -> Seq<
    (Seq<char>, Json),
> {
    if is_spliced(item) {
        spliced(acc, item.value->Object_0)
    } else {
        inserted(acc, terminal_name(item.path), item.value)
    }
}

/// The entries of the object that merging `items` in order gives.
pub open spec fn merged(items: Seq<Selected>) -> Seq<(Seq<char>, Json)>
    decreases items.len(),
{
    if items.len() == 0 {
        Seq::empty()
    } else {
        merged_with(merged(items.drop_last()), items.last())
    }
}

/// The elements of the array that concatenating `items` gives: the value of
/// each item, whole, in order.
pub open spec fn concatenated(items: Seq<Selected>) -> Seq<Json> {
    Seq::new(items.len(), |i: int| items[i].value)
}

/// The document that `items` combine to: `Null` for no item at all, else an
/// object or an array as `join` asks.
pub open spec fn combined(items: Seq<Selected>, join: Join) -> Json {
    if items.len() == 0 {
        Json::Null
    } else {
        match join {
            Join::Merge => Json::Object(merged(items)),
            Join::Concat => Json::Array(concatenated(items)),
        }
    }
}

/// No value at all combines to `Null`, whatever the mode.
pub proof fn lemma_nothing_combines_to_null(join: Join)
    ensures
        combined(Seq::empty(), join) == Json::Null,
{
}

/// Under `Concat` every value is one element of the result, in its place and
/// whole: an array among the values stays an array within the result.
pub proof fn lemma_concat_keeps_each(items: Seq<Selected>)
    requires
        items.len() > 0,
    ensures
        combined(items, Join::Concat) is Array,
        combined(items, Join::Concat)->Array_0.len() == items.len(),
        forall|i: int|
            0 <= i < items.len() ==> combined(items, Join::Concat)->Array_0[i] == (
            #[trigger] items[i]).value,
{
}

/// Under `Merge`, the value that was merged last is the one found under its
/// name, whatever was merged under that name before.
pub proof fn lemma_merge_last_wins(items: Seq<Selected>, item: Selected)
    requires
        !is_spliced(item),
    ensures
        combined(items.push(item), Join::Merge) is Object,
        lookup(combined(items.push(item), Join::Merge)->Object_0, terminal_name(item.path))
            == Some(item.value),
{
    assert(items.push(item).drop_last() =~= items);
    lemma_inserted_lookup(
        merged(items),
        terminal_name(item.path),
        item.value,
        terminal_name(item.path),
    );
}

/// Setting entries one by one keeps the keys distinct.
pub proof fn lemma_spliced_distinct(acc: Seq<(Seq<char>, Json)>, entries: Seq<(Seq<char>, Json)>)
    requires
        distinct_keys(acc),
    ensures
        distinct_keys(spliced(acc, entries)),
    decreases entries.len(),
{
    if entries.len() > 0 {
        lemma_spliced_distinct(acc, entries.drop_last());
        lemma_inserted_distinct(
            spliced(acc, entries.drop_last()),
            entries.last().0,
            entries.last().1,
        );
    }
}

/// The object that merging gives never has two entries with one key.
pub proof fn lemma_merged_distinct(items: Seq<Selected>)
    ensures
        distinct_keys(merged(items)),
    decreases items.len(),
{
    if items.len() > 0 {
        let front = items.drop_last();
        let item = items.last();
        lemma_merged_distinct(front);
        if is_spliced(item) {
            lemma_spliced_distinct(merged(front), item.value->Object_0);
        } else {
            lemma_inserted_distinct(merged(front), terminal_name(item.path), item.value);
        }
    }
}

/// Every value of the entries is well-formed.
pub open spec fn values_wf(entries: Seq<(Seq<char>, Json)>) -> bool {
    forall|i: int| 0 <= i < entries.len() ==> (#[trigger] entries[i]).1.wf()
}

/// Setting a key to a well-formed value keeps the values well-formed.
pub proof fn lemma_inserted_values_wf(
    entries: Seq<(Seq<char>, Json)>,
    key: Seq<char>,
    value: Json,
)
    requires
        values_wf(entries),
        value.wf(),
    ensures
        values_wf(inserted(entries, key, value)),
{
    lemma_position(entries, key);
}

/// Setting entries with well-formed values one by one keeps the values
/// well-formed.
pub proof fn lemma_spliced_values_wf(acc: Seq<(Seq<char>, Json)>, entries: Seq<(Seq<char>, Json)>)
    requires
        values_wf(acc),
        values_wf(entries),
    ensures
        values_wf(spliced(acc, entries)),
    decreases entries.len(),
{
    if entries.len() > 0 {
        let front = entries.drop_last();
        assert forall|i: int| 0 <= i < front.len() implies (#[trigger] front[i]).1.wf() by {
            assert(front[i] == entries[i]);
        }
        lemma_spliced_values_wf(acc, front);
        lemma_inserted_values_wf(spliced(acc, front), entries.last().0, entries.last().1);
    }
}

/// Merging well-formed values gives entries with well-formed values.
pub proof fn lemma_merged_values_wf(items: Seq<Selected>)
    requires
        forall|i: int| 0 <= i < items.len() ==> (#[trigger] items[i]).value.wf(),
    ensures
        values_wf(merged(items)),
    decreases items.len(),
{
    if items.len() > 0 {
        let front = items.drop_last();
        let item = items.last();
        assert forall|i: int| 0 <= i < front.len() implies (#[trigger] front[i]).value.wf() by {
            assert(front[i] == items[i]);
        }
        lemma_merged_values_wf(front);
        if is_spliced(item) {
            lemma_spliced_values_wf(merged(front), item.value->Object_0);
        } else {
            lemma_inserted_values_wf(merged(front), terminal_name(item.path), item.value);
        }
    }
}

/// Combining well-formed values gives a well-formed document.
pub proof fn lemma_combined_wf(items: Seq<Selected>, join: Join)
    requires
        forall|i: int| 0 <= i < items.len() ==> (#[trigger] items[i]).value.wf(),
    ensures
        combined(items, join).wf(),
{
    if items.len() > 0 {
        match join {
            Join::Merge => {
                lemma_merged_distinct(items);
                lemma_merged_values_wf(items);
            },
            Join::Concat => {
                assert forall|i: int| 0 <= i < items.len() implies (#[trigger] concatenated(
                    items,
                )[i]).wf() by {
                    assert(items[i].value.wf());
                }
            },
        }
    }
}

/// Sets each entry of `source` in `entries`, in order.
fn splice_entries(entries: &mut Vec<(String, Value)>, source: &Vec<(String, Value)>)
    ensures
        entries_view(final(entries)@) == spliced(
            entries_view(old(entries)@),
            entries_view(source@),
        ),
{
    let ghost from = entries_view(source@);
    let ghost before = entries_view(entries@);
    let mut i: usize = 0;
    while i < source.len()
        invariant
            i <= source.len(),
            from == entries_view(source@),
            entries_view(entries@) == spliced(before, from.take(i as int)),
        decreases source.len() - i,
    {
        let key = source[i].0.clone();
        let value = source[i].1.clone();
        insert_entry(entries, key, value);
        proof {
            assert(from.take(i + 1).drop_last() =~= from.take(i as int));
        }
        i += 1;
    }
    assert(from.take(source.len() as int) =~= from);
}

/// Combines the selected values, in their order, into one document.
///
/// No value at all gives `Null`. Under `Concat` the result is the array of
/// the values, each as one element, an array too. Under `Merge` it is one
/// object: a value that is a whole document and an object gives its
/// entries, any other is stored under the terminal name of its path, and an
/// entry that comes later replaces the value of an earlier one with its key.
pub fn join_values(selected: Vec<SelectedValue>, join: Join) -> (document: Value)
    ensures
        document@ == combined(selected_view(selected@), join),
        (forall|i: int| 0 <= i < selected.len() ==> (#[trigger] selected[i]).value.wf())
            ==> document.wf(),
{
    let ghost items = selected_view(selected@);
    proof {
        if forall|i: int| 0 <= i < selected.len() ==> (#[trigger] selected[i]).value.wf() {
            assert(forall|i: int|
                0 <= i < items.len() ==> (#[trigger] items[i]).value == selected[i].value@);
            lemma_combined_wf(items, join);
        }
    }
    if selected.len() == 0 {
        return Value::Null;
    }
    match join {
        Join::Concat => {
            let mut elements: Vec<Value> = Vec::new();
            let mut i: usize = 0;
            while i < selected.len()
                invariant
                    i <= selected.len(),
                    elements.len() == i,
                    forall|k: int| 0 <= k < i ==> elements[k]@ == selected[k].value@,
                decreases selected.len() - i,
            {
                elements.push(selected[i].value.clone());
                i += 1;
            }
            proof {
                lemma_array_view(elements);
                assert(items_view(elements@) =~= concatenated(items));
            }
            Value::Array(elements)
        },
        Join::Merge => {
            let mut entries: Vec<(String, Value)> = Vec::new();
            let mut i: usize = 0;
            while i < selected.len()
                invariant
                    i <= selected.len(),
                    items == selected_view(selected@),
                    entries_view(entries@) == merged(items.take(i as int)),
                decreases selected.len() - i,
            {
                proof {
                    assert(items.take(i + 1).drop_last() =~= items.take(i as int));
                }
                let whole = selected[i].path.tokens().len() == 0;
                match &selected[i].value {
                    Value::Object(source) if whole => {
                        proof {
                            lemma_object_view(*source);
                        }
                        splice_entries(&mut entries, source);
                    },
                    _ => {
                        let key = selected[i].path.terminal_name();
                        let value = selected[i].value.clone();
                        insert_entry(&mut entries, key, value);
                    },
                }
                i += 1;
            }
            proof {
                assert(items.take(selected.len() as int) =~= items);
                lemma_object_view(entries);
            }
            Value::Object(entries)
        },
    }
}

/// The values that the paths of `selects` select in one document, one for
/// each path, in the order of the paths.
pub open spec fn selected_in(document: Json, paths: Seq<Seq<Step>>) -> Seq<Selected> {
    Seq::new(paths.len(), |i: int| Selected { value: resolved(document, paths[i]), path: paths[i] })
}

/// The values that the paths select in each of the documents: document by
/// document, and within one document path by path.
pub open spec fn selected_in_all(documents: Seq<Json>, paths: Seq<Seq<Step>>) -> Seq<Selected>
    decreases documents.len(),
{
    if documents.len() == 0 {
        Seq::empty()
    } else {
        selected_in_all(documents.drop_last(), paths) + selected_in(documents.last(), paths)
    }
}

/// Resolves each path of `selects` against one document.
pub fn select_values(json_content: &Value, selects: &Selects) -> (selected: Vec<SelectedValue>)
    ensures
        selected_view(selected@) == selected_in(json_content@, selects@),
{
    let mut selected: Vec<SelectedValue> = Vec::new();
    let mut i: usize = 0;
    while i < selects.0.len()
        invariant
            i <= selects.0.len(),
            selected.len() == i,
            forall|k: int|
                0 <= k < i ==> (#[trigger] selected[k])@ == (Selected {
                    value: resolved(json_content@, selects@[k]),
                    path: selects@[k],
                }),
        decreases selects.0.len() - i,
    {
        let item = SelectedValue::new(json_content.clone(), selects.0[i].clone());
        selected.push(item);
        i += 1;
    }
    selected
}

/// Resolves each path of `selects` against each document: one flat list,
/// ordered by document and, within a document, by path.
pub fn process_documents(documents: &Vec<Value>, selects: &Selects) -> (selected: Vec<
    SelectedValue,
>)
    ensures
        selected_view(selected@) == selected_in_all(items_view(documents@), selects@),
{
    let ghost models = items_view(documents@);
    let mut selected: Vec<SelectedValue> = Vec::new();
    let mut i: usize = 0;
    while i < documents.len()
        invariant
            i <= documents.len(),
            models == items_view(documents@),
            selected_view(selected@) == selected_in_all(models.take(i as int), selects@),
        decreases documents.len() - i,
    {
        let ghost before = selected_view(selected@);
        let mut found = select_values(&documents[i], selects);
        let ghost added = selected_view(found@);
        selected.append(&mut found);
        proof {
            assert(models.take(i + 1).drop_last() =~= models.take(i as int));
            assert(selected_view(selected@) =~= before + added);
        }
        i += 1;
    }
    assert(models.take(documents.len() as int) =~= models);
    selected
}

} // verus!
