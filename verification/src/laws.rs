//! What holds of every translation, stated over the models and proved.

use crate::document::{first_key_at, lemma_first_key_unique, position_of, untagged, NodeView};
use crate::error::RunErrorView;
use crate::table::{TableView, Text};
use crate::translate::{
    element_renames, element_translated, field_renames, field_translated, fields_renames,
    fields_translated, name_key, name_renamed, name_translated, renames, section_names,
    section_renames, section_translated, translated,
};
use vstd::prelude::*;

verus! {

/// The entries of `value`, if it is a mapping under any tags.
pub open spec fn entries_of(value: NodeView) -> Option<Seq<(NodeView, NodeView)>> {
    match untagged(value) {
        NodeView::Mapping(entries) => Some(entries),
        _ => None,
    }
}

/// `value` with `inner` in place of what stands under its tags.
pub open spec fn retagged(value: NodeView, inner: NodeView) -> NodeView
    decreases value,
{
    match value {
        NodeView::Tagged(tag, below) => NodeView::Tagged(tag, Box::new(retagged(*below, inner))),
        _ => inner,
    }
}

/// The name of `element`: the value of its entry `name`, if it has one.
pub open spec fn element_name(element: NodeView) -> Option<NodeView> {
    match entries_of(element) {
        Some(entries) => match position_of(entries, name_key()) {
            Some(index) => Some(entries[index].1),
            None => None,
        },
        None => None,
    }
}

/// The elements of the list `field` of `document`, if it has such a list.
pub open spec fn section_of(document: NodeView, field: Text) -> Option<Seq<NodeView>> {
    match entries_of(document) {
        Some(entries) => match position_of(entries, field) {
            Some(index) => match entries[index].1 {
                NodeView::Sequence(items) => Some(items),
                _ => None,
            },
            None => None,
        },
        None => None,
    }
}

/// `name` is a string that `table` translates.
pub open spec fn name_known(name: NodeView, table: TableView) -> bool {
    untagged(name) matches NodeView::String(text) && table.contains_key(text)
}

/// Every name among `items` is a string that `table` translates.
pub open spec fn section_covered(items: Seq<NodeView>, table: TableView) -> bool {
    forall|at: int|
        0 <= at < items.len() ==> (element_name(#[trigger] items[at]) matches Some(name)
            ==> name_known(name, table))
}

/// What stands under the tags of a value is no tag, and the value is its
/// tags around it.
pub proof fn lemma_untagged(value: NodeView)
    ensures
        !(untagged(value) is Tagged),
        retagged(value, untagged(value)) == value,
    decreases value,
{
    match value {
        NodeView::Tagged(_, below) => {
            lemma_untagged(*below);
        },
        _ => {},
    }
}

/// Putting a value that is no tag under the tags of another leaves it there.
pub proof fn lemma_untag_retagged(value: NodeView, inner: NodeView)
    requires
        !(inner is Tagged),
    ensures
        untagged(retagged(value, inner)) == inner,
    decreases value,
{
    match value {
        NodeView::Tagged(_, below) => {
            lemma_untag_retagged(*below, inner);
        },
        _ => {},
    }
}

/// The position of a key is that of its first occurrence, or there is none.
pub proof fn lemma_position(entries: Seq<(NodeView, NodeView)>, key: Text)
    ensures
        match position_of(entries, key) {
            Some(index) => first_key_at(entries, key, index),
            None => forall|at: int|
                0 <= at < entries.len() ==> (#[trigger] entries[at]).0 != NodeView::String(key),
        },
{
    if position_of(entries, key) is None {
        assert forall|at: int| 0 <= at < entries.len() implies (#[trigger] entries[at]).0
            != NodeView::String(key) by {
            if entries[at].0 == NodeView::String(key) {
                lemma_some_first(entries, key, at);
            }
        }
    }
}

/// Where a key occurs it has a first occurrence.
proof fn lemma_some_first(entries: Seq<(NodeView, NodeView)>, key: Text, at: int)
    requires
        0 <= at < entries.len(),
        entries[at].0 == NodeView::String(key),
    ensures
        exists|index: int| first_key_at(entries, key, index),
    decreases at,
{
    if exists|earlier: int|
        0 <= earlier < at && (#[trigger] entries[earlier]).0 == NodeView::String(key) {
        let earlier = choose|earlier: int|
            0 <= earlier < at && (#[trigger] entries[earlier]).0 == NodeView::String(key);
        lemma_some_first(entries, key, earlier);
    } else {
        assert(first_key_at(entries, key, at));
    }
}

/// Entries with the same keys in the same places have the same positions.
pub proof fn lemma_position_by_keys(
    entries: Seq<(NodeView, NodeView)>,
    others: Seq<(NodeView, NodeView)>,
    key: Text,
)
    requires
        entries.len() == others.len(),
        forall|at: int| 0 <= at < entries.len() ==> (#[trigger] entries[at]).0 == others[at].0,
    ensures
        position_of(entries, key) == position_of(others, key),
{
    lemma_position(entries, key);
    lemma_position(others, key);
    match position_of(entries, key) {
        Some(index) => {
            assert(others[index].0 == entries[index].0);
            assert forall|earlier: int| 0 <= earlier < index implies (#[trigger] others[earlier]).0
                != NodeView::String(key) by {
                assert(entries[earlier].0 == others[earlier].0);
            }
            lemma_first_key_unique(others, key, index);
        },
        None => {
            match position_of(others, key) {
                Some(index) => {
                    assert(entries[index].0 == others[index].0);
                },
                None => {},
            }
        },
    }
}

/// What the translation of an element is, without recursion: an element
/// without a name stays; one with a name gets the name's replacement in the
/// same entry, under the same tags.
pub proof fn law_element_translated(element: NodeView, field: Text, table: TableView)
    ensures
        element_translated(element, field, table) == match element_name(element) {
            None => Ok::<NodeView, RunErrorView>(element),
            Some(name) => match name_translated(name, field, table) {
                Ok(replacement) => {
                    let entries = entries_of(element)->Some_0;
                    let index = position_of(entries, name_key())->Some_0;
                    Ok(
                        retagged(
                            element,
                            NodeView::Mapping(
                                entries.update(index, (entries[index].0, replacement)),
                            ),
                        ),
                    )
                },
                Err(error) => Err(error),
            },
        },
    decreases element,
{
    match element {
        NodeView::Tagged(_, below) => {
            law_element_translated(*below, field, table);
        },
        _ => {},
    }
}

/// An element is translated exactly if it has no name or a name that the
/// table translates.
pub proof fn law_element_covered(element: NodeView, field: Text, table: TableView)
    ensures
        element_translated(element, field, table) is Ok <==> (element_name(element) matches Some(
            name,
        ) ==> name_known(name, table)),
{
    law_element_translated(element, field, table);
}

/// A translated element has the translation as its name, where it had a name.
pub proof fn law_element_renamed(element: NodeView, field: Text, table: TableView)
    requires
        element_translated(element, field, table) is Ok,
    ensures
        match element_name(element) {
            Some(name) => element_name(element_translated(element, field, table)->Ok_0) == Some(
                NodeView::String(table[untagged(name)->String_0]),
            ),
            None => element_translated(element, field, table)->Ok_0 == element,
        },
{
    law_element_translated(element, field, table);
    match element_name(element) {
        Some(name) => {
            let entries = entries_of(element)->Some_0;
            let index = position_of(entries, name_key())->Some_0;
            let replacement = name_translated(name, field, table)->Ok_0;
            let after = entries.update(index, (entries[index].0, replacement));
            lemma_position(entries, name_key());
            lemma_untag_retagged(element, NodeView::Mapping(after));
            lemma_position_by_keys(entries, after, name_key());
        },
        None => {},
    }
}

/// A translated section has an element for each element, in the same order,
/// each the translation of its own; a section fails with the error of its
/// first element that fails.
pub proof fn law_section_translated(items: Seq<NodeView>, field: Text, table: TableView)
    ensures
        match section_translated(items, field, table) {
            Ok(done) => {
                &&& done.len() == items.len()
                &&& forall|at: int|
                    0 <= at < items.len() ==> element_translated(
                        #[trigger] items[at],
                        field,
                        table,
                    ) == Ok::<NodeView, RunErrorView>(done[at])
            },
            Err(error) => exists|at: int|
                {
                    &&& 0 <= at < items.len()
                    &&& element_translated(#[trigger] items[at], field, table) == Err::<
                        NodeView,
                        RunErrorView,
                    >(error)
                    &&& forall|earlier: int|
                        0 <= earlier < at ==> element_translated(
                            #[trigger] items[earlier],
                            field,
                            table,
                        ) is Ok
                },
        },
    decreases items.len(),
{
    if items.len() > 0 {
        let front = items.drop_last();
        law_section_translated(front, field, table);
        match section_translated(front, field, table) {
            Ok(done) => {
                match element_translated(items.last(), field, table) {
                    Ok(last) => {
                        let all = done.push(last);
                        assert forall|at: int| 0 <= at < items.len() implies element_translated(
                            #[trigger] items[at],
                            field,
                            table,
                        ) == Ok::<NodeView, RunErrorView>(all[at]) by {
                            if at < front.len() {
                                assert(items[at] == front[at]);
                            }
                        }
                    },
                    Err(error) => {
                        let at = items.len() - 1;
                        assert forall|earlier: int| 0 <= earlier < at implies element_translated(
                            #[trigger] items[earlier],
                            field,
                            table,
                        ) is Ok by {
                            assert(items[earlier] == front[earlier]);
                        }
                        assert(element_translated(items[at], field, table) == Err::<
                            NodeView,
                            RunErrorView,
                        >(error));
                    },
                }
            },
            Err(error) => {
                let at = choose|at: int|
                    {
                        &&& 0 <= at < front.len()
                        &&& element_translated(#[trigger] front[at], field, table) == Err::<
                            NodeView,
                            RunErrorView,
                        >(error)
                        &&& forall|earlier: int|
                            0 <= earlier < at ==> element_translated(
                                #[trigger] front[earlier],
                                field,
                                table,
                            ) is Ok
                    };
                assert(items[at] == front[at]);
                assert forall|earlier: int| 0 <= earlier < at implies element_translated(
                    #[trigger] items[earlier],
                    field,
                    table,
                ) is Ok by {
                    assert(items[earlier] == front[earlier]);
                }
            },
        }
    }
}

/// A section is translated exactly if the table covers its names.
pub proof fn law_section_covered(items: Seq<NodeView>, field: Text, table: TableView)
    ensures
        section_translated(items, field, table) is Ok <==> section_covered(items, table),
{
    law_section_translated(items, field, table);
    assert forall|at: int| 0 <= at < items.len() implies (element_translated(
        #[trigger] items[at],
        field,
        table,
    ) is Ok <==> (element_name(items[at]) matches Some(name) ==> name_known(name, table))) by {
        law_element_covered(items[at], field, table);
    }
}

/// What the translation of one list of a document is, without recursion: a
/// document without the list stays; else the list's entry gets the
/// translated elements, under the same tags.
pub proof fn law_field_translated(document: NodeView, field: Text, table: TableView)
    ensures
        field_translated(document, field, table) == match section_of(document, field) {
            None => Ok::<NodeView, RunErrorView>(document),
            Some(items) => match section_translated(items, field, table) {
                Ok(done) => {
                    let entries = entries_of(document)->Some_0;
                    let index = position_of(entries, field)->Some_0;
                    Ok(
                        retagged(
                            document,
                            NodeView::Mapping(
                                entries.update(
                                    index,
                                    (entries[index].0, NodeView::Sequence(done)),
                                ),
                            ),
                        ),
                    )
                },
                Err(error) => Err(error),
            },
        },
    decreases document,
{
    match document {
        NodeView::Tagged(_, below) => {
            law_field_translated(*below, field, table);
        },
        _ => {},
    }
}

/// Tags put on twice are the tags put on once.
pub proof fn lemma_retag_twice(value: NodeView, inner: NodeView, last: NodeView)
    requires
        !(inner is Tagged),
    ensures
        retagged(retagged(value, inner), last) == retagged(value, last),
    decreases value,
{
    match value {
        NodeView::Tagged(_, below) => {
            lemma_retag_twice(*below, inner, last);
        },
        _ => {},
    }
}

/// What `after` keeps of `before`: the tags, and, where `before` is a
/// mapping, the number of entries, every key in its place, and every entry
/// whose key is none of the strings `fields`.
pub open spec fn keeps_all_but(before: NodeView, after: NodeView, fields: Seq<Text>) -> bool {
    &&& after == retagged(before, untagged(after))
    &&& match entries_of(before) {
        Some(entries) => {
            &&& entries_of(after) matches Some(others)
            &&& others.len() == entries.len()
            &&& forall|at: int|
                0 <= at < entries.len() ==> {
                    &&& (#[trigger] others[at]).0 == entries[at].0
                    &&& (forall|name: int|
                        0 <= name < fields.len() ==> entries[at].0 != NodeView::String(
                            #[trigger] fields[name],
                        )) ==> others[at] == entries[at]
                }
        },
        None => after == before,
    }
}

/// One pass over the list `field`: the document keeps all but that list,
/// every other list is as it was, and the list itself holds the translated
/// elements.
pub proof fn law_field_pass(document: NodeView, field: Text, table: TableView)
    requires
        field_translated(document, field, table) is Ok,
    ensures
        keeps_all_but(document, field_translated(document, field, table)->Ok_0, seq![field]),
        forall|other: Text|
            other != field ==> section_of(
                field_translated(document, field, table)->Ok_0,
                other,
            ) == #[trigger] section_of(document, other),
        match section_of(document, field) {
            Some(items) => section_translated(items, field, table) matches Ok(done) && section_of(
                field_translated(document, field, table)->Ok_0,
                field,
            ) == Some(done),
            None => field_translated(document, field, table)->Ok_0 == document,
        },
{
    let after = field_translated(document, field, table)->Ok_0;
    law_field_translated(document, field, table);
    lemma_untagged(document);
    match section_of(document, field) {
        Some(items) => {
            let done = section_translated(items, field, table)->Ok_0;
            let entries = entries_of(document)->Some_0;
            let index = position_of(entries, field)->Some_0;
            let others = entries.update(index, (entries[index].0, NodeView::Sequence(done)));
            lemma_untag_retagged(document, NodeView::Mapping(others));
            lemma_position(entries, field);
            lemma_position_by_keys(entries, others, field);
            assert(seq![field][0] == field);
            assert forall|other: Text| other != field implies section_of(after, other)
                == #[trigger] section_of(document, other) by {
                lemma_position_by_keys(entries, others, other);
                lemma_position(entries, other);
            }
        },
        None => {},
    }
}

/// The pass over the three sections is the pass over `sensor`, then over
/// `button`, then over `text_sensor`, up to the first error.
pub proof fn lemma_three_passes(document: NodeView, table: TableView)
    ensures
        translated(document, table) == match field_translated(document, "sensor"@, table) {
            Ok(first) => match field_translated(first, "button"@, table) {
                Ok(second) => field_translated(second, "text_sensor"@, table),
                Err(error) => Err(error),
            },
            Err(error) => Err(error),
        },
        "sensor"@ != "button"@,
        "sensor"@ != "text_sensor"@,
        "button"@ != "text_sensor"@,
{
    let names = section_names();
    assert(names.drop_first() =~= seq!["button"@, "text_sensor"@]);
    assert(names.drop_first().drop_first() =~= seq!["text_sensor"@]);
    assert(names.drop_first().drop_first().drop_first() =~= Seq::<Text>::empty());
    reveal_with_fuel(fields_translated, 4);
    reveal_strlit("sensor");
    reveal_strlit("button");
    reveal_strlit("text_sensor");
    assert("sensor"@[0] != "button"@[0]);
    assert("sensor"@.len() != "text_sensor"@.len());
    assert("button"@.len() != "text_sensor"@.len());
}

/// What two steps keep one after the other, both keep together.
pub proof fn lemma_keeps_both(
    before: NodeView,
    between: NodeView,
    after: NodeView,
    first: Seq<Text>,
    second: Seq<Text>,
)
    requires
        keeps_all_but(before, between, first),
        keeps_all_but(between, after, second),
    ensures
        keeps_all_but(before, after, first + second),
{
    let fields = first + second;
    lemma_untagged(between);
    lemma_retag_twice(before, untagged(between), untagged(after));
    match entries_of(before) {
        Some(entries) => {
            let middle = entries_of(between)->Some_0;
            let others = entries_of(after)->Some_0;
            assert forall|at: int| 0 <= at < entries.len() implies {
                &&& (#[trigger] others[at]).0 == entries[at].0
                &&& (forall|name: int|
                    0 <= name < fields.len() ==> entries[at].0 != NodeView::String(
                        #[trigger] fields[name],
                    )) ==> others[at] == entries[at]
            } by {
                assert(middle[at].0 == entries[at].0);
                if forall|name: int|
                    0 <= name < fields.len() ==> entries[at].0 != NodeView::String(
                        #[trigger] fields[name],
                    ) {
                    assert forall|name: int| 0 <= name < first.len() implies entries[at].0
                        != NodeView::String(#[trigger] first[name]) by {
                        assert(fields[name] == first[name]);
                    }
                    assert forall|name: int| 0 <= name < second.len() implies middle[at].0
                        != NodeView::String(#[trigger] second[name]) by {
                        assert(fields[first.len() + name] == second[name]);
                    }
                }
            }
        },
        None => {},
    }
}

/// The sections of a translated document, one by one: `sensor`, `button`
/// and `text_sensor`, each the translation of the section that the document
/// had when it was given.
pub proof fn lemma_translated_sections(document: NodeView, table: TableView)
    requires
        translated(document, table) is Ok,
    ensures
        keeps_all_but(document, translated(document, table)->Ok_0, section_names()),
        forall|name: int|
            0 <= name < section_names().len() ==> match section_of(
                document,
                #[trigger] section_names()[name],
            ) {
                Some(items) => section_translated(items, section_names()[name], table) matches Ok(
                    done,
                ) && section_of(translated(document, table)->Ok_0, section_names()[name]) == Some(
                    done,
                ),
                None => section_of(translated(document, table)->Ok_0, section_names()[name])
                    is None,
            },
{
    lemma_three_passes(document, table);
    let first = field_translated(document, "sensor"@, table)->Ok_0;
    let second = field_translated(first, "button"@, table)->Ok_0;
    let third = field_translated(second, "text_sensor"@, table)->Ok_0;
    law_field_pass(document, "sensor"@, table);
    law_field_pass(first, "button"@, table);
    law_field_pass(second, "text_sensor"@, table);
    lemma_keeps_both(document, first, second, seq!["sensor"@], seq!["button"@]);
    lemma_keeps_both(
        document,
        second,
        third,
        seq!["sensor"@] + seq!["button"@],
        seq!["text_sensor"@],
    );
    assert(seq!["sensor"@] + seq!["button"@] + seq!["text_sensor"@] =~= section_names());
    assert(section_of(first, "button"@) == section_of(document, "button"@));
    assert(section_of(second, "text_sensor"@) == section_of(first, "text_sensor"@));
    assert(section_of(first, "text_sensor"@) == section_of(document, "text_sensor"@));
    assert(section_of(second, "sensor"@) == section_of(first, "sensor"@));
    assert(section_of(third, "sensor"@) == section_of(second, "sensor"@));
    assert(section_of(third, "button"@) == section_of(second, "button"@));
    assert forall|name: int| 0 <= name < section_names().len() implies match section_of(
        document,
        #[trigger] section_names()[name],
    ) {
        Some(items) => section_translated(items, section_names()[name], table) matches Ok(done)
            && section_of(third, section_names()[name]) == Some(done),
        None => section_of(third, section_names()[name]) is None,
    } by {
        if name == 0 {
            assert(section_names()[name] == "sensor"@);
        } else if name == 1 {
            assert(section_names()[name] == "button"@);
        } else {
            assert(section_names()[name] == "text_sensor"@);
        }
    }
}

/// Structure is kept. A translated document has the tags, the number of
/// entries and the keys of the document it came from, and every entry whose
/// key is none of the three section names is the entry it was. Each section
/// has as many elements as before, in the same order, each the translation of
/// its own; a section that was not there is not there.
pub proof fn law_structure_preserved(document: NodeView, table: TableView)
    requires
        translated(document, table) is Ok,
    ensures
        keeps_all_but(document, translated(document, table)->Ok_0, section_names()),
        forall|name: int|
            0 <= name < section_names().len() ==> match section_of(
                document,
                #[trigger] section_names()[name],
            ) {
                Some(items) => {
                    &&& section_of(
                        translated(document, table)->Ok_0,
                        section_names()[name],
                    ) matches Some(done)
                    &&& done.len() == items.len()
                    &&& forall|at: int|
                        0 <= at < items.len() ==> element_translated(
                            #[trigger] items[at],
                            section_names()[name],
                            table,
                        ) == Ok::<NodeView, RunErrorView>(done[at])
                },
                None => section_of(translated(document, table)->Ok_0, section_names()[name])
                    is None,
            },
{
    lemma_translated_sections(document, table);
    assert forall|name: int| 0 <= name < section_names().len() implies match section_of(
        document,
        #[trigger] section_names()[name],
    ) {
        Some(items) => {
            &&& section_of(translated(document, table)->Ok_0, section_names()[name]) matches Some(
                done,
            )
            &&& done.len() == items.len()
            &&& forall|at: int|
                0 <= at < items.len() ==> element_translated(
                    #[trigger] items[at],
                    section_names()[name],
                    table,
                ) == Ok::<NodeView, RunErrorView>(done[at])
        },
        None => section_of(translated(document, table)->Ok_0, section_names()[name]) is None,
    } by {
        match section_of(document, section_names()[name]) {
            Some(items) => {
                law_section_translated(items, section_names()[name], table);
            },
            None => {},
        }
    }
}

/// Full coverage is required, and enough: a document is translated exactly
/// if every name in its three sections is a string that the table translates.
pub proof fn law_translated_covered(document: NodeView, table: TableView)
    ensures
        translated(document, table) is Ok <==> forall|name: int|
            0 <= name < section_names().len() ==> (section_of(
                document,
                #[trigger] section_names()[name],
            ) matches Some(items) ==> section_covered(items, table)),
{
    lemma_three_passes(document, table);
    let names = section_names();
    assert(names[0] == "sensor"@ && names[1] == "button"@ && names[2] == "text_sensor"@);
    law_field_translated(document, names[0], table);
    if let Some(items) = section_of(document, names[0]) {
        law_section_covered(items, names[0], table);
    }
    if field_translated(document, names[0], table) is Ok {
        let first = field_translated(document, names[0], table)->Ok_0;
        law_field_pass(document, names[0], table);
        assert(section_of(first, names[1]) == section_of(document, names[1]));
        assert(section_of(first, names[2]) == section_of(document, names[2]));
        law_field_translated(first, names[1], table);
        if let Some(items) = section_of(first, names[1]) {
            law_section_covered(items, names[1], table);
        }
        if field_translated(first, names[1], table) is Ok {
            let second = field_translated(first, names[1], table)->Ok_0;
            law_field_pass(first, names[1], table);
            assert(section_of(second, names[2]) == section_of(first, names[2]));
            law_field_translated(second, names[2], table);
            if let Some(items) = section_of(second, names[2]) {
                law_section_covered(items, names[2], table);
            }
        }
    }
}

/// Identity on what has no name: where no element of the three sections has
/// a name, the translated document is the document.
pub proof fn law_nameless_unchanged(document: NodeView, table: TableView)
    requires
        forall|name: int|
            0 <= name < section_names().len() ==> (section_of(
                document,
                #[trigger] section_names()[name],
            ) matches Some(items) ==> forall|at: int|
                0 <= at < items.len() ==> element_name(#[trigger] items[at]) is None),
    ensures
        translated(document, table) == Ok::<NodeView, RunErrorView>(document),
{
    lemma_three_passes(document, table);
    let names = section_names();
    assert(names[0] == "sensor"@ && names[1] == "button"@ && names[2] == "text_sensor"@);
    lemma_nameless_pass(document, names[0], table);
    lemma_nameless_pass(document, names[1], table);
    lemma_nameless_pass(document, names[2], table);
}

/// An element without a name is kept: in a translated document it stands
/// where it stood, as it was.
pub proof fn law_nameless_element_kept(document: NodeView, table: TableView, name: int, at: int)
    requires
        translated(document, table) is Ok,
        0 <= name < section_names().len(),
        section_of(document, section_names()[name]) matches Some(items) && 0 <= at < items.len()
            && element_name(items[at]) is None,
    ensures
        section_of(translated(document, table)->Ok_0, section_names()[name]) matches Some(done)
            && done[at] == section_of(document, section_names()[name])->Some_0[at],
{
    let field = section_names()[name];
    let items = section_of(document, field)->Some_0;
    law_structure_preserved(document, table);
    law_element_translated(items[at], field, table);
}

/// A pass over a list without names changes nothing.
proof fn lemma_nameless_pass(document: NodeView, field: Text, table: TableView)
    requires
        section_of(document, field) matches Some(items) ==> forall|at: int|
            0 <= at < items.len() ==> element_name(#[trigger] items[at]) is None,
    ensures
        field_translated(document, field, table) == Ok::<NodeView, RunErrorView>(document),
{
    law_field_translated(document, field, table);
    lemma_untagged(document);
    if let Some(items) = section_of(document, field) {
        law_section_translated(items, field, table);
        law_section_covered(items, field, table);
        let done = section_translated(items, field, table)->Ok_0;
        assert forall|at: int| 0 <= at < items.len() implies done[at] == items[at] by {
            law_element_translated(items[at], field, table);
        }
        assert(done =~= items);
        let entries = entries_of(document)->Some_0;
        let index = position_of(entries, field)->Some_0;
        lemma_position(entries, field);
        assert(entries.update(index, (entries[index].0, NodeView::Sequence(done))) =~= entries);
    }
}

/// A second pass fails. Where the table translates no name into a name that
/// it translates too, and some element of a section has a name, the
/// translated document cannot be translated again.
pub proof fn law_second_pass_fails(document: NodeView, table: TableView, name: int, at: int)
    requires
        translated(document, table) is Ok,
        forall|key: Text| table.contains_key(key) ==> !table.contains_key(#[trigger] table[key]),
        0 <= name < section_names().len(),
        section_of(document, section_names()[name]) matches Some(items) && 0 <= at < items.len()
            && element_name(items[at]) is Some,
    ensures
        translated(translated(document, table)->Ok_0, table) is Err,
{
    let field = section_names()[name];
    let done = translated(document, table)->Ok_0;
    let items = section_of(document, field)->Some_0;
    law_structure_preserved(document, table);
    let after = section_of(done, field)->Some_0;
    assert(element_translated(items[at], field, table) == Ok::<NodeView, RunErrorView>(after[at]));
    law_element_covered(items[at], field, table);
    law_element_renamed(items[at], field, table);
    let old_name = untagged(element_name(items[at])->Some_0)->String_0;
    assert(table.contains_key(old_name));
    assert(!table.contains_key(table[old_name]));
    assert(!name_known(element_name(after[at])->Some_0, table));
    assert(!section_covered(after, table));
    law_translated_covered(done, table);
}

/// The replacement in an element is that of its name, if it has one.
pub proof fn law_element_renames(element: NodeView, table: TableView)
    ensures
        element_renames(element, table) == match element_name(element) {
            Some(name) => name_renamed(name, table),
            None => Seq::empty(),
        },
    decreases element,
{
    match element {
        NodeView::Tagged(_, below) => {
            law_element_renames(*below, table);
        },
        _ => {},
    }
}

/// The replacements in one list of a document are those of the list's
/// elements; a document without the list has none.
pub proof fn law_field_renames(document: NodeView, field: Text, table: TableView)
    ensures
        field_renames(document, field, table) == match section_of(document, field) {
            Some(items) => section_renames(items, table),
            None => Seq::empty(),
        },
    decreases document,
{
    match document {
        NodeView::Tagged(_, below) => {
            law_field_renames(*below, field, table);
        },
        _ => {},
    }
}

/// The replacements of a translation are those of the document's list
/// `sensor`, then those of its list `button`, then those of its list
/// `text_sensor`.
pub proof fn law_renames_by_section(document: NodeView, table: TableView)
    requires
        translated(document, table) is Ok,
    ensures
        renames(document, table) == field_renames(document, "sensor"@, table) + field_renames(
            document,
            "button"@,
            table,
        ) + field_renames(document, "text_sensor"@, table),
{
    lemma_three_passes(document, table);
    let names = section_names();
    assert(names.drop_first() =~= seq!["button"@, "text_sensor"@]);
    assert(names.drop_first().drop_first() =~= seq!["text_sensor"@]);
    assert(names.drop_first().drop_first().drop_first() =~= Seq::<Text>::empty());
    reveal_with_fuel(fields_renames, 4);
    let first = field_translated(document, "sensor"@, table)->Ok_0;
    let second = field_translated(first, "button"@, table)->Ok_0;
    law_field_pass(document, "sensor"@, table);
    law_field_pass(first, "button"@, table);
    law_field_renames(document, "button"@, table);
    law_field_renames(first, "button"@, table);
    law_field_renames(document, "text_sensor"@, table);
    law_field_renames(first, "text_sensor"@, table);
    law_field_renames(second, "text_sensor"@, table);
    assert(section_of(first, "button"@) == section_of(document, "button"@));
    assert(section_of(first, "text_sensor"@) == section_of(document, "text_sensor"@));
    assert(section_of(second, "text_sensor"@) == section_of(first, "text_sensor"@));
    let third = field_renames(second, "text_sensor"@, table);
    assert(third + Seq::<(Text, Text)>::empty() =~= third);
    assert(field_renames(document, "sensor"@, table) + (field_renames(first, "button"@, table)
        + third) =~= field_renames(document, "sensor"@, table) + field_renames(
        first,
        "button"@,
        table,
    ) + third);
}

} // verus!
