//! The mapping source: JSON text that holds a sequence of flat string
//! mappings, and the table that is built from it.

use crate::error::RunError;
use crate::table::{merge_mapping, merge_sources, TableView, Text, TranslationTable};
use std::collections::HashMap;
use vstd::prelude::*;

verus! {

/// `serde_json::Error`, carried from the parser to the error message.
#[verifier::external_type_specification]
#[verifier::external_body]
pub struct ExJsonError(serde_json::Error);

/// The mappings that `serde_json` reads from `text` as a sequence of objects
/// from string to string, each as the map it denotes; `None` where the text
/// is no JSON or has another shape.
pub uninterp spec fn json_mappings(text: Seq<char>) -> Option<Seq<Map<Seq<char>, Seq<char>>>>;

/// The map that the pairs of one mapping denote.
pub open spec fn mapping_denoted(mapping: Seq<(Text, Text)>) -> TableView {
    merge_mapping(Map::empty(), mapping)
}

/// The maps that the mappings of a source denote.
pub open spec fn source_denoted(source: Seq<Seq<(Text, Text)>>) -> Seq<TableView> {
    source.map_values(|mapping: Seq<(Text, Text)>| mapping_denoted(mapping))
}

/// The maps merged into one, first map first, a later map's value for a key
/// taking the place of an earlier one's.
pub open spec fn maps_merged(maps: Seq<TableView>) -> TableView
    decreases maps.len(),
{
    if maps.len() == 0 {
        Map::empty()
    } else {
        maps_merged(maps.drop_last()).union_prefer_right(maps.last())
    }
}

/// `serde_json::from_str` at the type `Vec<HashMap<String, String>>`, each
/// map handed out as its pairs. The pairs of a map come in no stated order;
/// the maps that they denote are those that the text holds, in its order.
/// An error comes exactly where the text does not hold such a sequence.
#[verifier::external_body]
fn json_from_str(text: &str) -> (outcome: Result<Vec<Vec<(String, String)>>, serde_json::Error>)
    ensures
        match outcome {
            Ok(source) => json_mappings(text@) == Some(source_denoted(source.deep_view())),
            Err(_) => json_mappings(text@) is None,
        },
{
    let maps: Vec<HashMap<String, String>> = serde_json::from_str(text)?;
    Ok(maps.into_iter().map(|map| map.into_iter().collect()).collect())
}

/// The `Display` text of a `serde_json::Error`. Nothing is claimed of it.
#[verifier::external_body]
fn json_error_text(error: &serde_json::Error) -> String {
    error.to_string()
}

/// Merging the pairs of a mapping into a table is the union with the map
/// that the pairs denote, the pairs' values first.
pub proof fn lemma_merge_is_union(table: TableView, mapping: Seq<(Text, Text)>)
    ensures
        merge_mapping(table, mapping) == table.union_prefer_right(mapping_denoted(mapping)),
    decreases mapping.len(),
{
    if mapping.len() == 0 {
        assert(table.union_prefer_right(Map::empty()) =~= table);
    } else {
        let front = mapping.drop_last();
        let last = mapping.last();
        lemma_merge_is_union(table, front);
        assert(table.union_prefer_right(mapping_denoted(front)).insert(last.0, last.1)
            =~= table.union_prefer_right(mapping_denoted(front).insert(last.0, last.1)));
    }
}

/// The table merged from a source is the merge of the maps that its mappings
/// denote: the order of the pairs within a mapping with distinct keys does
/// not show in it.
pub proof fn law_merge_by_maps(source: Seq<Seq<(Text, Text)>>)
    ensures
        merge_sources(source) == maps_merged(source_denoted(source)),
    decreases source.len(),
{
    if source.len() > 0 {
        law_merge_by_maps(source.drop_last());
        lemma_merge_is_union(merge_sources(source.drop_last()), source.last());
        assert(source_denoted(source).drop_last() =~= source_denoted(source.drop_last()));
    }
}

/// The mappings that the JSON text `text` holds, first mapping first, the
/// pairs of each mapping in no particular order.
pub fn parse_mapping_source(text: &str) -> (outcome: Result<Vec<Vec<(String, String)>>, RunError>)
    ensures
        match outcome {
            Ok(source) => json_mappings(text@) == Some(source_denoted(source.deep_view())),
            Err(error) => json_mappings(text@) is None && error@ is MappingSource,
        },
{
    match json_from_str(text) {
        Ok(source) => Ok(source),
        Err(error) => Err(RunError::MappingSource { message: json_error_text(&error) }),
    }
}

/// The translation table that the JSON text `text` holds: the merge of its
/// mappings, a later mapping's value for a key taking the place of an
/// earlier one's.
pub fn load_translation_json(text: &str) -> (outcome: Result<TranslationTable, RunError>)
    ensures
        match outcome {
            Ok(table) => json_mappings(text@) matches Some(maps) && table@ == maps_merged(maps),
            Err(error) => json_mappings(text@) is None && error@ is MappingSource,
        },
{
    match parse_mapping_source(text) {
        Ok(source) => {
            proof {
                law_merge_by_maps(source.deep_view());
            }
            Ok(TranslationTable::build(&source))
        },
        Err(error) => Err(error),
    }
}

} // verus!
