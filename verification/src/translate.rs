//! Replacing the names in a document by their translations.

use crate::document::{
    entries_view, find_key, items_view, lemma_mapping_view, lemma_sequence_view, position_of,
    untagged, Node, NodeView,
};
use crate::error::{RunError, RunErrorView};
use crate::table::{TableView, Text, TranslationTable};
use vstd::prelude::*;
use vstd::string::StringExecFns;

verus! {

/// The key of the entry that holds an element's name.
pub open spec fn name_key() -> Text {
    "name"@
}

/// The top-level lists whose elements are translated, in the order of the pass.
pub open spec fn section_names() -> Seq<Text> {
    seq!["sensor"@, "button"@, "text_sensor"@]
}

/// The replacement of the name `value` of an element of the list `field`.
pub open spec fn name_translated(value: NodeView, field: Text, table: TableView) -> Result<
    NodeView,
    RunErrorView,
> {
    match untagged(value) {
        NodeView::String(name) => if table.contains_key(name) {
            Ok(NodeView::String(table[name]))
        } else {
            Err(RunErrorView::MissingTranslation { field, name })
        },
        _ => Err(RunErrorView::NameNotString { field }),
    }
}

/// `element` of the list `field` with its name replaced, if it is a mapping
/// (under any tags) that has one; else `element` itself.
pub open spec fn element_translated(element: NodeView, field: Text, table: TableView) -> Result<
    NodeView,
    RunErrorView,
>
    decreases element,
{
    match element {
        NodeView::Tagged(tag, inner) => match element_translated(*inner, field, table) {
            Ok(done) => Ok(NodeView::Tagged(tag, Box::new(done))),
            Err(error) => Err(error),
        },
        NodeView::Mapping(entries) => match position_of(entries, name_key()) {
            Some(index) => match name_translated(entries[index].1, field, table) {
                Ok(name) => Ok(NodeView::Mapping(entries.update(index, (entries[index].0, name)))),
                Err(error) => Err(error),
            },
            None => Ok(element),
        },
        _ => Ok(element),
    }
}

/// The elements of the list `field`, each translated; the error of the first
/// element that has one.
pub open spec fn section_translated(items: Seq<NodeView>, field: Text, table: TableView) -> Result<
    Seq<NodeView>,
    RunErrorView,
>
    decreases items.len(),
{
    if items.len() == 0 {
        Ok(items)
    } else {
        match section_translated(items.drop_last(), field, table) {
            Ok(done) => match element_translated(items.last(), field, table) {
                Ok(last) => Ok(done.push(last)),
                Err(error) => Err(error),
            },
            Err(error) => Err(error),
        }
    }
}

/// `document` with the elements of its list `field` translated. A document
/// that is no mapping (under any tags), or has no entry `field`, or whose
/// entry `field` is no sequence, is left as it is.
pub open spec fn field_translated(document: NodeView, field: Text, table: TableView) -> Result<
    NodeView,
    RunErrorView,
>
    decreases document,
{
    match document {
        NodeView::Tagged(tag, inner) => match field_translated(*inner, field, table) {
            Ok(done) => Ok(NodeView::Tagged(tag, Box::new(done))),
            Err(error) => Err(error),
        },
        NodeView::Mapping(entries) => match position_of(entries, field) {
            Some(index) => match entries[index].1 {
                NodeView::Sequence(items) => match section_translated(items, field, table) {
                    Ok(done) => Ok(
                        NodeView::Mapping(
                            entries.update(index, (entries[index].0, NodeView::Sequence(done))),
                        ),
                    ),
                    Err(error) => Err(error),
                },
                _ => Ok(document),
            },
            None => Ok(document),
        },
        _ => Ok(document),
    }
}

/// `document` after the lists `fields` have been translated one after the
/// other; the first error ends the pass.
pub open spec fn fields_translated(
    document: NodeView,
    fields: Seq<Text>,
    table: TableView,
) -> Result<NodeView, RunErrorView>
    decreases fields.len(),
{
    if fields.len() == 0 {
        Ok(document)
    } else {
        match field_translated(document, fields.first(), table) {
            Ok(done) => fields_translated(done, fields.drop_first(), table),
            Err(error) => Err(error),
        }
    }
}

/// `document` with the names in its three sections translated.
pub open spec fn translated(document: NodeView, table: TableView) -> Result<
    NodeView,
    RunErrorView,
> {
    fields_translated(document, section_names(), table)
}

/// The replacement that the name `value` gets, as (name, translation): one
/// where the name is a string that the table translates, else none.
pub open spec fn name_renamed(value: NodeView, table: TableView) -> Seq<(Text, Text)> {
    match untagged(value) {
        NodeView::String(name) => if table.contains_key(name) {
            seq![(name, table[name])]
        } else {
            Seq::empty()
        },
        _ => Seq::empty(),
    }
}

/// The replacement that the translation of `element` makes, if it makes one.
pub open spec fn element_renames(element: NodeView, table: TableView) -> Seq<(Text, Text)>
    decreases element,
{
    match element {
        NodeView::Tagged(_, inner) => element_renames(*inner, table),
        NodeView::Mapping(entries) => match position_of(entries, name_key()) {
            Some(index) => name_renamed(entries[index].1, table),
            None => Seq::empty(),
        },
        _ => Seq::empty(),
    }
}

/// The replacements that the translation of `items` makes, first element
/// first.
pub open spec fn section_renames(items: Seq<NodeView>, table: TableView) -> Seq<(Text, Text)>
    decreases items.len(),
{
    if items.len() == 0 {
        Seq::empty()
    } else {
        section_renames(items.drop_last(), table) + element_renames(items.last(), table)
    }
}

/// The replacements that the translation of the list `field` of `document`
/// makes.
pub open spec fn field_renames(document: NodeView, field: Text, table: TableView) -> Seq<
    (Text, Text),
>
    decreases document,
{
    match document {
        NodeView::Tagged(_, inner) => field_renames(*inner, field, table),
        NodeView::Mapping(entries) => match position_of(entries, field) {
            Some(index) => match entries[index].1 {
                NodeView::Sequence(items) => section_renames(items, table),
                _ => Seq::empty(),
            },
            None => Seq::empty(),
        },
        _ => Seq::empty(),
    }
}

/// The replacements that the pass over the lists `fields` makes, in the
/// order in which it makes them.
pub open spec fn fields_renames(document: NodeView, fields: Seq<Text>, table: TableView) -> Seq<
    (Text, Text),
>
    decreases fields.len(),
{
    if fields.len() == 0 {
        Seq::empty()
    } else {
        field_renames(document, fields.first(), table) + match field_translated(
            document,
            fields.first(),
            table,
        ) {
            Ok(done) => fields_renames(done, fields.drop_first(), table),
            Err(_) => Seq::empty(),
        }
    }
}

/// The replacements that the translation of the three sections makes.
pub open spec fn renames(document: NodeView, table: TableView) -> Seq<(Text, Text)> {
    fields_renames(document, section_names(), table)
}

/// One replacement: the name that an element had and the name that it got.
#[derive(Debug, PartialEq, Eq)]
pub struct Replacement {
    pub name: String,
    pub translation: String,
}

impl View for Replacement {
    type V = (Text, Text);

    open spec fn view(&self) -> (Text, Text) {
        (self.name@, self.translation@)
    }
}

impl Clone for Replacement {
    /// A copy with the same texts.
    fn clone(&self) -> (copy: Self)
        ensures
            copy@ == self@,
    {
        Replacement { name: self.name.clone(), translation: self.translation.clone() }
    }
}

impl Replacement {
    /// The line that reports the replacement: the name, a colon, the
    /// translation.
    pub fn line(&self) -> (text: String)
        ensures
            text@ == self.name@ + seq![':'] + self.translation@,
    {
        proof {
            reveal_strlit(":");
        }
        self.name.clone().concat(":").concat(self.translation.as_str())
    }
}

/// The model of a log of replacements.
pub open spec fn log_view(log: Seq<Replacement>) -> Seq<(Text, Text)> {
    Seq::new(log.len(), |at: int| log[at]@)
}

/// A translated document and the replacements that were made in it, in the
/// order in which they were made.
#[derive(Debug, PartialEq)]
pub struct Translation {
    pub document: Node,
    pub replacements: Vec<Replacement>,
}

/// The string under any tags of `value`, if that is what it holds.
fn name_text(value: &Node) -> (found: Option<&String>)
    ensures
        match found {
            Some(name) => untagged(value@) == NodeView::String(name@),
            None => !(untagged(value@) is String),
        },
    decreases value,
{
    match value {
        Node::Tagged(_, inner) => name_text(inner),
        Node::String(name) => Some(name),
        _ => None,
    }
}

/// The replacement of the name `value` of an element of the list `field`.
fn replacement(value: &Node, field: &String, table: &TranslationTable) -> (outcome: Result<
    Replacement,
    RunError,
>)
    ensures
        match outcome {
            Ok(found) => {
                &&& name_translated(value@, field@, table@) == Ok::<NodeView, RunErrorView>(
                    NodeView::String(found.translation@),
                )
                &&& name_renamed(value@, table@) == seq![found@]
            },
            Err(error) => name_translated(value@, field@, table@) == Err::<NodeView, RunErrorView>(
                error@,
            ),
        },
{
    match name_text(value) {
        Some(name) => match table.get(name.as_str()) {
            Some(translation) => Ok(
                Replacement { name: name.clone(), translation: translation.clone() },
            ),
            None => Err(RunError::MissingTranslation { field: field.clone(), name: name.clone() }),
        },
        None => Err(RunError::NameNotString { field: field.clone() }),
    }
}

/// Replaces the name of `element`, an element of the list `field`, by its
/// translation, and notes the replacement in `log`. On an error `element`
/// and `log` are as they were.
fn translate_element(
    element: &mut Node,
    field: &String,
    key: &String,
    table: &TranslationTable,
    log: &mut Vec<Replacement>,
) -> (outcome: Result<(), RunError>)
    requires
        key@ == name_key(),
    ensures
        match outcome {
            Ok(()) => {
                &&& element_translated(old(element)@, field@, table@) == Ok::<
                    NodeView,
                    RunErrorView,
                >(final(element)@)
                &&& log_view(final(log)@) == log_view(old(log)@) + element_renames(
                    old(element)@,
                    table@,
                )
            },
            Err(error) => {
                &&& element_translated(old(element)@, field@, table@) == Err::<
                    NodeView,
                    RunErrorView,
                >(error@)
                &&& *final(element) == *old(element)
                &&& *final(log) == *old(log)
            },
        },
    decreases *old(element),
{
    match element {
        Node::Tagged(_, inner) => translate_element(&mut **inner, field, key, table, log),
        Node::Mapping(entries) => {
            proof {
                lemma_mapping_view(*entries);
            }
            match find_key(entries, key) {
                Some(index) => {
                    match replacement(&entries[index].1, field, table) {
                        Ok(found) => {
                            let ghost before = *entries;
                            entries[index].1 = Node::String(found.translation.clone());
                            log.push(found);
                            proof {
                                lemma_mapping_view(*entries);
                                assert(entries_view(entries@) =~= entries_view(before@).update(
                                    index as int,
                                    (
                                        entries_view(before@)[index as int].0,
                                        NodeView::String(found.translation@),
                                    ),
                                ));
                            }
                            Ok(())
                        },
                        Err(error) => Err(error),
                    }
                },
                None => Ok(()),
            }
        },
        _ => Ok(()),
    }
}

/// A section one element longer is the shorter one's translation, then the
/// new element's.
proof fn lemma_section_step(items: Seq<NodeView>, count: int, field: Text, table: TableView)
    requires
        0 <= count < items.len(),
    ensures
        section_translated(items.take(count + 1), field, table) == match section_translated(
            items.take(count),
            field,
            table,
        ) {
            Ok(done) => match element_translated(items[count], field, table) {
                Ok(last) => Ok::<Seq<NodeView>, RunErrorView>(done.push(last)),
                Err(error) => Err(error),
            },
            Err(error) => Err(error),
        },
        section_renames(items.take(count + 1), table) == section_renames(items.take(count), table)
            + element_renames(items[count], table),
{
    assert(items.take(count + 1).drop_last() =~= items.take(count));
}

/// An error in the translation of a prefix is the error of the whole section.
proof fn lemma_section_end(items: Seq<NodeView>, count: int, field: Text, table: TableView)
    requires
        0 <= count <= items.len(),
        section_translated(items.take(count), field, table) is Err,
    ensures
        section_translated(items, field, table) == section_translated(
            items.take(count),
            field,
            table,
        ),
    decreases items.len() - count,
{
    if count == items.len() {
        assert(items.take(count) =~= items);
    } else {
        lemma_section_step(items, count, field, table);
        lemma_section_end(items, count + 1, field, table);
    }
}

/// Translates the elements of the list `field`, first element first, up to
/// the first error, and notes the replacements in `log`.
fn translate_section(
    items: &mut Vec<Node>,
    field: &String,
    table: &TranslationTable,
    log: &mut Vec<Replacement>,
) -> (outcome: Result<(), RunError>)
    ensures
        match outcome {
            Ok(()) => {
                &&& section_translated(items_view(old(items)@), field@, table@) == Ok::<
                    Seq<NodeView>,
                    RunErrorView,
                >(items_view(final(items)@))
                &&& log_view(final(log)@) == log_view(old(log)@) + section_renames(
                    items_view(old(items)@),
                    table@,
                )
            },
            Err(error) => section_translated(items_view(old(items)@), field@, table@) == Err::<
                Seq<NodeView>,
                RunErrorView,
            >(error@),
        },
{
    let ghost before = items_view(items@);
    let ghost noted = log_view(log@);
    let key = "name".to_owned();
    let mut index: usize = 0;
    while index < items.len()
        invariant
            index <= items.len(),
            items.len() == before.len(),
            before == items_view(old(items)@),
            noted == log_view(old(log)@),
            key@ == name_key(),
            section_translated(before.take(index as int), field@, table@) == Ok::<
                Seq<NodeView>,
                RunErrorView,
            >(items_view(items@).take(index as int)),
            log_view(log@) == noted + section_renames(before.take(index as int), table@),
            forall|later: int| index <= later < items.len() ==> items@[later]@ == before[later],
        decreases items.len() - index,
    {
        let ghost current = items_view(items@);
        let ghost so_far = section_renames(before.take(index as int), table@);
        proof {
            lemma_section_step(before, index as int, field@, table@);
        }
        match translate_element(&mut items[index], field, &key, table, log) {
            Ok(()) => {
                proof {
                    assert(items_view(items@).take(index + 1) =~= current.take(index as int).push(
                        items@[index as int]@,
                    ));
                    assert(noted + so_far + element_renames(before[index as int], table@) =~= noted
                        + (so_far + element_renames(before[index as int], table@)));
                }
            },
            Err(error) => {
                proof {
                    lemma_section_end(before, index + 1, field@, table@);
                }
                return Err(error);
            },
        }
        index += 1;
    }
    proof {
        assert(before.take(index as int) =~= before);
        assert(items_view(items@).take(index as int) =~= items_view(items@));
    }
    Ok(())
}

/// Translates the elements of the list `field` of `document`, and notes the
/// replacements in `log`.
fn translate_field(
    document: &mut Node,
    field: &String,
    table: &TranslationTable,
    log: &mut Vec<Replacement>,
) -> (outcome: Result<(), RunError>)
    ensures
        match outcome {
            Ok(()) => {
                &&& field_translated(old(document)@, field@, table@) == Ok::<
                    NodeView,
                    RunErrorView,
                >(final(document)@)
                &&& log_view(final(log)@) == log_view(old(log)@) + field_renames(
                    old(document)@,
                    field@,
                    table@,
                )
            },
            Err(error) => field_translated(old(document)@, field@, table@) == Err::<
                NodeView,
                RunErrorView,
            >(error@),
        },
    decreases *old(document),
{
    match document {
        Node::Tagged(_, inner) => translate_field(&mut **inner, field, table, log),
        Node::Mapping(entries) => {
            let ghost before = *entries;
            proof {
                lemma_mapping_view(before);
            }
            match find_key(entries, field) {
                Some(index) => {
                    match &mut entries[index].1 {
                        Node::Sequence(items) => {
                            proof {
                                lemma_sequence_view(*items);
                            }
                            let outcome = translate_section(items, field, table, log);
                            proof {
                                lemma_sequence_view(*items);
                                if outcome is Ok {
                                    lemma_mapping_view(*entries);
                                    assert(entries_view(entries@) =~= entries_view(
                                        before@,
                                    ).update(
                                        index as int,
                                        (
                                            entries_view(before@)[index as int].0,
                                            entries@[index as int].1@,
                                        ),
                                    ));
                                }
                            }
                            outcome
                        },
                        _ => {
                            proof {
                                assert(entries@ =~= before@);
                                lemma_mapping_view(*entries);
                            }
                            Ok(())
                        },
                    }
                },
                None => Ok(()),
            }
        },
        _ => Ok(()),
    }
}

/// The model of the outcome of a translation.
pub open spec fn outcome_view(outcome: Result<Translation, RunError>) -> Result<
    NodeView,
    RunErrorView,
> {
    match outcome {
        Ok(done) => Ok(done.document@),
        Err(error) => Err(error@),
    }
}

/// `document` after the lists named by `fields` have been translated, first
/// name first, with the replacements that were made; the error of the first
/// element whose name has no translation or is no string.
pub fn translate_fields(document: Node, fields: &Vec<String>, table: &TranslationTable) -> (outcome:
    Result<Translation, RunError>)
    ensures
        outcome_view(outcome) == fields_translated(document@, fields.deep_view(), table@),
        outcome matches Ok(done) ==> log_view(done.replacements@) == fields_renames(
            document@,
            fields.deep_view(),
            table@,
        ),
{
    let ghost names = fields.deep_view();
    let mut current = document;
    let mut log: Vec<Replacement> = Vec::new();
    let mut index: usize = 0;
    assert(names.skip(0) =~= names);
    while index < fields.len()
        invariant
            index <= fields.len(),
            names == fields.deep_view(),
            names.len() == fields.len(),
            fields_translated(document@, names, table@) == fields_translated(
                current@,
                names.skip(index as int),
                table@,
            ),
            fields_translated(document@, names, table@) is Ok ==> fields_renames(
                document@,
                names,
                table@,
            ) == log_view(log@) + fields_renames(current@, names.skip(index as int), table@),
        decreases fields.len() - index,
    {
        assert(names.skip(index as int).drop_first() =~= names.skip(index + 1));
        match translate_field(&mut current, &fields[index], table, &mut log) {
            Ok(()) => {},
            Err(error) => {
                return Err(error);
            },
        }
        index += 1;
    }
    Ok(Translation { document: current, replacements: log })
}

/// `document` with the name of every element of its lists `sensor`, `button`
/// and `text_sensor` replaced by its translation in `table`, with the
/// replacements that were made. An element without a name stays as it is,
/// and so does all that is not in these lists. The first name that is no
/// string, or that the table lacks, is an error.
pub fn translate(document: Node, table: &TranslationTable) -> (outcome: Result<
    Translation,
    RunError,
>)
    ensures
        outcome_view(outcome) == translated(document@, table@),
        outcome matches Ok(done) ==> log_view(done.replacements@) == renames(document@, table@),
{
    let mut fields: Vec<String> = Vec::new();
    fields.push("sensor".to_owned());
    fields.push("button".to_owned());
    fields.push("text_sensor".to_owned());
    assert(fields.deep_view() =~= section_names());
    translate_fields(document, &fields, table)
}

} // verus!
