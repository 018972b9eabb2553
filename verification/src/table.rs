//! The translation table and the merge that builds it.

use vstd::hash_map::StringHashMap;
use vstd::prelude::*;

verus! {

/// The text of a string, as contracts see it.
pub type Text = Seq<char>;

/// The model of a translation table: a name to its replacement.
pub type TableView = Map<Text, Text>;

/// The table after every pair of `mapping` has been inserted into `table`,
/// first pair first, a later pair replacing an earlier one with the same key.
pub open spec fn merge_mapping(table: TableView, mapping: Seq<(Text, Text)>) -> TableView
    decreases mapping.len(),
{
    if mapping.len() == 0 {
        table
    } else {
        merge_mapping(table, mapping.drop_last()).insert(mapping.last().0, mapping.last().1)
    }
}

/// The table merged from `sources`, first mapping first.
pub open spec fn merge_sources(sources: Seq<Seq<(Text, Text)>>) -> TableView
    decreases sources.len(),
{
    if sources.len() == 0 {
        Map::empty()
    } else {
        merge_mapping(merge_sources(sources.drop_last()), sources.last())
    }
}

/// Some pair of `mapping` has the key `key`.
pub open spec fn mapping_has_key(mapping: Seq<(Text, Text)>, key: Text) -> bool {
    exists|at: int| 0 <= at < mapping.len() && (#[trigger] mapping[at]).0 == key
}

/// Some mapping of `sources` has the key `key`.
pub open spec fn sources_have_key(sources: Seq<Seq<(Text, Text)>>, key: Text) -> bool {
    exists|at: int| 0 <= at < sources.len() && mapping_has_key(#[trigger] sources[at], key)
}

/// Merging a mapping keeps the keys that the table had and adds the keys of
/// the mapping; a key that the mapping lacks keeps its value.
pub proof fn law_mapping_keys(table: TableView, mapping: Seq<(Text, Text)>, key: Text)
    ensures
        merge_mapping(table, mapping).contains_key(key) <==> table.contains_key(key)
            || mapping_has_key(mapping, key),
        !mapping_has_key(mapping, key) && table.contains_key(key) ==> merge_mapping(
            table,
            mapping,
        )[key] == table[key],
    decreases mapping.len(),
{
    if mapping.len() > 0 {
        let front = mapping.drop_last();
        law_mapping_keys(table, front, key);
        if mapping_has_key(front, key) {
            let at = choose|at: int| 0 <= at < front.len() && (#[trigger] front[at]).0 == key;
            assert(mapping[at].0 == key);
        }
        if mapping.last().0 == key {
            assert(mapping[mapping.len() - 1].0 == key);
        }
        if mapping_has_key(mapping, key) {
            let at = choose|at: int| 0 <= at < mapping.len() && (#[trigger] mapping[at]).0 == key;
            if at < front.len() {
                assert(front[at].0 == key);
            }
        }
    }
}

/// Within one mapping the last pair of a key gives the key its value.
pub proof fn law_last_pair_wins(table: TableView, mapping: Seq<(Text, Text)>, at: int)
    requires
        0 <= at < mapping.len(),
        forall|later: int|
            at < later < mapping.len() ==> (#[trigger] mapping[later]).0 != mapping[at].0,
    ensures
        merge_mapping(table, mapping).contains_key(mapping[at].0),
        merge_mapping(table, mapping)[mapping[at].0] == mapping[at].1,
    decreases mapping.len(),
{
    if at < mapping.len() - 1 {
        let front = mapping.drop_last();
        assert(mapping[mapping.len() - 1].0 != mapping[at].0);
        assert forall|later: int| at < later < front.len() implies (#[trigger] front[later]).0
            != front[at].0 by {
            assert(mapping[later].0 != mapping[at].0);
        }
        law_last_pair_wins(table, front, at);
    }
}

/// The merged table has a key exactly if some mapping of the source has it.
pub proof fn law_merged_keys(sources: Seq<Seq<(Text, Text)>>, key: Text)
    ensures
        merge_sources(sources).contains_key(key) <==> sources_have_key(sources, key),
    decreases sources.len(),
{
    if sources.len() > 0 {
        let front = sources.drop_last();
        law_merged_keys(front, key);
        law_mapping_keys(merge_sources(front), sources.last(), key);
        if sources_have_key(front, key) {
            let at = choose|at: int|
                0 <= at < front.len() && mapping_has_key(#[trigger] front[at], key);
            assert(mapping_has_key(sources[at], key));
        }
        if mapping_has_key(sources.last(), key) {
            assert(mapping_has_key(sources[sources.len() - 1], key));
        }
        if sources_have_key(sources, key) {
            let at = choose|at: int|
                0 <= at < sources.len() && mapping_has_key(#[trigger] sources[at], key);
            if at < front.len() {
                assert(mapping_has_key(front[at], key));
            }
        }
    }
}

/// Later wins: a key has the value of its last pair, that is of the pair
/// after which neither its own mapping nor a later one names the key again.
pub proof fn law_later_source_wins(sources: Seq<Seq<(Text, Text)>>, source: int, at: int)
    requires
        0 <= source < sources.len(),
        0 <= at < sources[source].len(),
        forall|later: int|
            at < later < sources[source].len() ==> (#[trigger] sources[source][later]).0
                != sources[source][at].0,
        forall|later: int|
            source < later < sources.len() ==> !mapping_has_key(
                #[trigger] sources[later],
                sources[source][at].0,
            ),
    ensures
        merge_sources(sources).contains_key(sources[source][at].0),
        merge_sources(sources)[sources[source][at].0] == sources[source][at].1,
    decreases sources.len(),
{
    let key = sources[source][at].0;
    let front = sources.drop_last();
    if source == sources.len() - 1 {
        law_last_pair_wins(merge_sources(front), sources.last(), at);
    } else {
        assert(!mapping_has_key(sources[sources.len() - 1], key));
        assert forall|later: int| source < later < front.len() implies !mapping_has_key(
            #[trigger] front[later],
            front[source][at].0,
        ) by {
            assert(!mapping_has_key(sources[later], key));
        }
        law_later_source_wins(front, source, at);
        law_mapping_keys(merge_sources(front), sources.last(), key);
    }
}

/// A lookup table from a name to its replacement, each name once.
pub struct TranslationTable {
    entries: StringHashMap<String>,
}

impl View for TranslationTable {
    type V = TableView;

    closed spec fn view(&self) -> TableView {
        self.entries@.map_values(|value: String| value@)
    }
}

impl TranslationTable {
    /// A table without entries.
    pub fn new() -> (table: Self)
        ensures
            table@ == TableView::empty(),
    {
        let table = TranslationTable { entries: StringHashMap::new() };
        assert(table@ =~= TableView::empty());
        table
    }

    /// Sets the replacement of `key`, whether or not it had one.
    pub fn insert(&mut self, key: String, value: String)
        ensures
            final(self)@ == old(self)@.insert(key@, value@),
    {
        self.entries.insert(key, value);
        assert(self@ =~= old(self)@.insert(key@, value@));
    }

    /// The replacement of `key`, if the table has one.
    pub fn get(&self, key: &str) -> (found: Option<&String>)
        ensures
            match found {
                Some(value) => self@.contains_key(key@) && value@ == self@[key@],
                None => !self@.contains_key(key@),
            },
    {
        self.entries.get(key)
    }

    /// Inserts every pair of `mapping`, first pair first; a pair replaces what
    /// its key had before.
    pub fn merge(&mut self, mapping: &Vec<(String, String)>)
        ensures
            final(self)@ == merge_mapping(old(self)@, mapping.deep_view()),
    {
        let ghost pairs = mapping.deep_view();
        let mut index: usize = 0;
        assert(pairs.take(0) =~= Seq::<(Text, Text)>::empty());
        while index < mapping.len()
            invariant
                index <= mapping.len(),
                pairs == mapping.deep_view(),
                pairs.len() == mapping.len(),
                self@ == merge_mapping(old(self)@, pairs.take(index as int)),
            decreases mapping.len() - index,
        {
            let key = mapping[index].0.clone();
            let value = mapping[index].1.clone();
            proof {
                let next = pairs.take(index + 1);
                assert(next.drop_last() =~= pairs.take(index as int));
                assert(next.last() == (key@, value@));
            }
            self.insert(key, value);
            index += 1;
        }
        assert(pairs.take(index as int) =~= pairs);
    }

    /// The table merged from the mappings of `source`, first mapping first: a
    /// key has the value of its last pair.
    pub fn build(source: &Vec<Vec<(String, String)>>) -> (table: Self)
        ensures
            table@ == merge_sources(source.deep_view()),
    {
        let ghost sources = source.deep_view();
        let mut table = TranslationTable::new();
        let mut index: usize = 0;
        assert(sources.take(0) =~= Seq::<Seq<(Text, Text)>>::empty());
        while index < source.len()
            invariant
                index <= source.len(),
                sources == source.deep_view(),
                sources.len() == source.len(),
                table@ == merge_sources(sources.take(index as int)),
            decreases source.len() - index,
        {
            proof {
                let next = sources.take(index + 1);
                assert(next.drop_last() =~= sources.take(index as int));
                assert(next.last() == source[index as int].deep_view());
            }
            table.merge(&source[index]);
            index += 1;
        }
        assert(sources.take(index as int) =~= sources);
        table
    }

    /// Whether the table has a replacement for `key`.
    pub fn contains_key(&self, key: &str) -> (found: bool)
        ensures
            found == self@.contains_key(key@),
    {
        self.entries.contains_key(key)
    }
}

} // verus!
