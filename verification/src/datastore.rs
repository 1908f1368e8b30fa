//! The tagged-event store: an owned collection of entries kept in ascending
//! time order, a tag vocabulary, and a monotonic identity counter.
use vstd::prelude::*;

use crate::datapoint::{
    clone_datapoints, create_datapoint, data_text, dpviews, fold_date, fold_time, kept_tags,
    raw_tags, tag_segments, Datapoint, DatapointView,
};
use crate::datetime::{before, datetime_lt, DateTime};
use crate::parsedquery::{matches_all, parse_spec, query_empty, tag_list_contains, ParsedQuery};
use crate::queryresult::{apply_commands, QueryResult};
use crate::text::{clone_strings, str_views};

verus! {

// ---------------------------------------------------------------------------
// The store's mathematical model.
// ---------------------------------------------------------------------------
/// What the store holds: entries, a tag vocabulary and the last key handed
/// out.
pub struct DatastoreView {
    pub entries: Seq<DatapointView>,
    pub tags: Seq<Seq<char>>,
    pub counter: u64,
}

/// Entries stand in non-decreasing time order.
pub open spec fn sorted_by_time(es: Seq<DatapointView>) -> bool {
    forall|i: int, j: int|
        0 <= i < j < es.len() ==> !before(#[trigger] es[j].datetime, #[trigger] es[i].datetime)
}

/// No two entries share a key.
pub open spec fn unique_keys(es: Seq<DatapointView>) -> bool {
    forall|i: int, j: int|
        0 <= i < j < es.len() ==> (#[trigger] es[i]).key != (#[trigger] es[j]).key
}

/// Every key has been handed out by the counter.
pub open spec fn keys_bounded(es: Seq<DatapointView>, counter: u64) -> bool {
    forall|i: int| 0 <= i < es.len() ==> (#[trigger] es[i]).key <= counter
}

/// Where the backward scan puts an entry of the given moment: right after
/// the last entry strictly before it, or at the front.
pub open spec fn insert_pos(es: Seq<DatapointView>, t: DateTime) -> int
    decreases es.len(),
{
    if es.len() == 0 {
        0
    } else if before(es.last().datetime, t) {
        es.len() as int
    } else {
        insert_pos(es.drop_last(), t)
    }
}

/// The index of the first entry with the given key, or the length.
pub open spec fn key_index(es: Seq<DatapointView>, key: u64) -> int
    decreases es.len(),
{
    if es.len() == 0 {
        0
    } else if es[0].key == key {
        0
    } else {
        1 + key_index(es.skip(1), key)
    }
}

/// A vocabulary extended with the new tags, in order, skipping those
/// already present.
pub open spec fn merge_tags(vocab: Seq<Seq<char>>, new: Seq<Seq<char>>) -> Seq<Seq<char>>
    decreases new.len(),
{
    if new.len() == 0 {
        vocab
    } else {
        let pre = merge_tags(vocab, new.drop_last());
        if pre.contains(new.last()) {
            pre
        } else {
            pre.push(new.last())
        }
    }
}

/// The largest key among the entries, or zero.
pub open spec fn max_key(es: Seq<DatapointView>) -> u64
    decreases es.len(),
{
    if es.len() == 0 {
        0u64
    } else {
        let pre = max_key(es.drop_last());
        if pre < es.last().key {
            es.last().key
        } else {
            pre
        }
    }
}

/// The vocabulary built by merging every entry's tags, in order.
pub open spec fn vocab_of(es: Seq<DatapointView>) -> Seq<Seq<char>>
    decreases es.len(),
{
    if es.len() == 0 {
        Seq::<Seq<char>>::empty()
    } else {
        merge_tags(vocab_of(es.drop_last()), es.last().tags)
    }
}

/// What a raw query returns: everything for an all-matching query, else
/// the entries carrying every required tag, run through the pipeline.
pub open spec fn query_spec(es: Seq<DatapointView>, terms: Seq<Seq<Seq<char>>>) -> Seq<
    DatapointView,
> {
    if query_empty(terms) {
        es
    } else {
        apply_commands(es.filter(|d: DatapointView| matches_all(terms, d.tags)), terms)
    }
}

// ---------------------------------------------------------------------------
// Supporting lemmas.
// ---------------------------------------------------------------------------
pub proof fn lemma_key_index(es: Seq<DatapointView>, key: u64, k: int)
    requires
        0 <= k <= es.len(),
        forall|l: int| 0 <= l < k ==> (#[trigger] es[l]).key != key,
        k < es.len() ==> es[k].key == key,
    ensures
        key_index(es, key) == k,
    decreases k,
{
    if k > 0 {
        lemma_key_index(es.skip(1), key, k - 1);
    }
}

pub proof fn lemma_key_index_props(es: Seq<DatapointView>, key: u64)
    ensures
        0 <= key_index(es, key) <= es.len(),
        key_index(es, key) < es.len() ==> es[key_index(es, key)].key == key,
        forall|l: int| 0 <= l < key_index(es, key) ==> (#[trigger] es[l]).key != key,
    decreases es.len(),
{
    if es.len() > 0 && es[0].key != key {
        lemma_key_index_props(es.skip(1), key);
        if key_index(es.skip(1), key) < es.skip(1).len() {
            assert(es.skip(1)[key_index(es.skip(1), key)] == es[key_index(es, key)]);
        }
        assert forall|l: int| 0 <= l < key_index(es, key) implies (#[trigger] es[l]).key
            != key by {
            if l > 0 {
                assert(es.skip(1)[l - 1] == es[l]);
            }
        }
    }
}

pub proof fn lemma_insert_pos_facts(es: Seq<DatapointView>, t: DateTime)
    ensures
        0 <= insert_pos(es, t) <= es.len(),
        insert_pos(es, t) > 0 ==> before(es[insert_pos(es, t) - 1].datetime, t),
        forall|j: int|
            insert_pos(es, t) <= j < es.len() ==> !before((#[trigger] es[j]).datetime, t),
    decreases es.len(),
{
    if es.len() > 0 && !before(es.last().datetime, t) {
        lemma_insert_pos_facts(es.drop_last(), t);
        assert forall|j: int|
            insert_pos(es, t) <= j < es.len() implies !before(
            (#[trigger] es[j]).datetime,
            t,
        ) by {
            if j < es.len() - 1 {
                assert(es.drop_last()[j] == es[j]);
            }
        }
    }
}

/// Inserting at the scanned position keeps the entries time-ordered.
#[verifier::rlimit(50)]
pub proof fn lemma_insert_sorted(es: Seq<DatapointView>, dv: DatapointView)
    requires
        sorted_by_time(es),
    ensures
        sorted_by_time(es.insert(insert_pos(es, dv.datetime), dv)),
{
    let pos = insert_pos(es, dv.datetime);
    lemma_insert_pos_facts(es, dv.datetime);
    es.insert_ensures(pos, dv);
    let ns = es.insert(pos, dv);
    assert forall|i: int, j: int| 0 <= i < j < ns.len() implies !before(
        #[trigger] ns[j].datetime,
        #[trigger] ns[i].datetime,
    ) by {
        if i < pos && j < pos {
        } else if i < pos && j == pos {
            assert(ns[i] == es[i]);
            if i < pos - 1 {
                assert(!before(es[pos - 1].datetime, es[i].datetime));
            }
        } else if i == pos && j > pos {
            assert(ns[j] == es[j - 1]);
        } else if i < pos && j > pos {
            assert(ns[i] == es[i] && ns[j] == es[j - 1]);
        } else if i > pos {
            assert(ns[i] == es[i - 1] && ns[j] == es[j - 1]);
        }
    }
}

/// Inserting an entry keyed past the counter keeps keys unique and bounded.
pub proof fn lemma_insert_fresh_key(es: Seq<DatapointView>, dv: DatapointView, counter: u64)
    requires
        unique_keys(es),
        keys_bounded(es, counter),
        counter < u64::MAX,
        dv.key == counter + 1,
    ensures
        unique_keys(es.insert(insert_pos(es, dv.datetime), dv)),
        keys_bounded(es.insert(insert_pos(es, dv.datetime), dv), (counter + 1) as u64),
{
    let pos = insert_pos(es, dv.datetime);
    lemma_insert_pos_facts(es, dv.datetime);
    es.insert_ensures(pos, dv);
    let ns = es.insert(pos, dv);
    assert forall|i: int, j: int| 0 <= i < j < ns.len() implies (#[trigger] ns[i]).key != (
    #[trigger] ns[j]).key by {
        if i != pos && j != pos {
            let oi: int = if i < pos {
                i
            } else {
                i - 1
            };
            let oj: int = if j < pos {
                j
            } else {
                j - 1
            };
            assert(ns[i] == es[oi] && ns[j] == es[oj]);
        }
    }
    assert forall|i: int| 0 <= i < ns.len() implies (#[trigger] ns[i]).key <= counter + 1 by {
        if i != pos {
            let oi: int = if i < pos {
                i
            } else {
                i - 1
            };
            assert(ns[i] == es[oi]);
        }
    }
}

/// Removing an entry keeps the entries time-ordered, unique and bounded.
pub proof fn lemma_remove_keeps_wf(es: Seq<DatapointView>, i: int, counter: u64)
    requires
        0 <= i < es.len(),
        sorted_by_time(es),
        unique_keys(es),
        keys_bounded(es, counter),
    ensures
        sorted_by_time(es.remove(i)),
        unique_keys(es.remove(i)),
        keys_bounded(es.remove(i), counter),
        forall|l: int|
            0 <= l < es.remove(i).len() ==> (#[trigger] es.remove(i)[l]).key != es[i].key,
{
    es.remove_ensures(i);
    let rs = es.remove(i);
    assert forall|a: int, b: int| 0 <= a < b < rs.len() implies !before(
        #[trigger] rs[b].datetime,
        #[trigger] rs[a].datetime,
    ) && rs[a].key != rs[b].key by {
        let ra: int = if a < i {
            a
        } else {
            a + 1
        };
        let rb: int = if b < i {
            b
        } else {
            b + 1
        };
        assert(rs[a] == es[ra] && rs[b] == es[rb]);
    }
    assert forall|l: int| 0 <= l < rs.len() implies (#[trigger] rs[l]).key <= counter && rs[l].key
        != es[i].key by {
        let rl: int = if l < i {
            l
        } else {
            l + 1
        };
        assert(rs[l] == es[rl]);
    }
}

/// The views of a value-level sequence insert.
pub proof fn lemma_dpviews_insert(s: Seq<Datapoint>, i: int, d: Datapoint)
    requires
        0 <= i <= s.len(),
    ensures
        dpviews(s.insert(i, d)) =~= dpviews(s).insert(i, d@),
{
    s.insert_ensures(i, d);
    dpviews(s).insert_ensures(i, d@);
    assert forall|k: int| 0 <= k < dpviews(s.insert(i, d)).len() implies dpviews(s.insert(i, d))[k]
        == dpviews(s).insert(i, d@)[k] by {
        if k < i {
            assert(s.insert(i, d)[k] == s[k]);
        } else if k == i {
            assert(s.insert(i, d)[k] == d);
        } else {
            assert(s.insert(i, d)[k] == s[k - 1]);
        }
    }
}

/// The views of a value-level sequence removal.
pub proof fn lemma_dpviews_remove(s: Seq<Datapoint>, i: int)
    requires
        0 <= i < s.len(),
    ensures
        dpviews(s.remove(i)) =~= dpviews(s).remove(i),
{
    s.remove_ensures(i);
    dpviews(s).remove_ensures(i);
    assert forall|k: int| 0 <= k < dpviews(s.remove(i)).len() implies dpviews(s.remove(i))[k]
        == dpviews(s).remove(i)[k] by {
        if k < i {
            assert(s.remove(i)[k] == s[k]);
        } else {
            assert(s.remove(i)[k] == s[k + 1]);
        }
    }
}

/// The views of a value-level sequence update.
pub proof fn lemma_dpviews_update(s: Seq<Datapoint>, i: int, d: Datapoint)
    requires
        0 <= i < s.len(),
    ensures
        dpviews(s.update(i, d)) =~= dpviews(s).update(i, d@),
{
}

/// The largest key bounds every key.
pub proof fn lemma_max_key_ge(es: Seq<DatapointView>)
    ensures
        forall|j: int| 0 <= j < es.len() ==> (#[trigger] es[j]).key <= max_key(es),
    decreases es.len(),
{
    if es.len() > 0 {
        lemma_max_key_ge(es.drop_last());
        assert forall|j: int| 0 <= j < es.len() implies (#[trigger] es[j]).key <= max_key(es) by {
            if j < es.len() - 1 {
                assert(es.drop_last()[j] == es[j]);
            }
        }
    }
}

// ---------------------------------------------------------------------------
// The store.
// ---------------------------------------------------------------------------
/// The tagged-event store.
pub struct Datastore {
    datapoints: Vec<Datapoint>,
    tags: Vec<String>,
    counter: u64,
}

impl View for Datastore {
    type V = DatastoreView;

    closed spec fn view(&self) -> DatastoreView {
        DatastoreView {
            entries: dpviews(self.datapoints@),
            tags: str_views(self.tags@),
            counter: self.counter,
        }
    }
}

/// Puts the entry right after the last stored entry strictly before it, or
/// at the front when none is.
pub fn insert_sorted_by_time(datapoint: Datapoint, vector: &mut Vec<Datapoint>)
    ensures
        dpviews(final(vector)@) == dpviews(old(vector)@).insert(
            insert_pos(dpviews(old(vector)@), datapoint@.datetime),
            datapoint@,
        ),
{
    let ghost es = dpviews(old(vector)@);
    let ghost t = datapoint@.datetime;
    if vector.len() == 0 {
        let ghost dv = datapoint@;
        vector.push(datapoint);
        proof {
            assert(dpviews(vector@) =~= es.insert(0, dv));
        }
    } else {
        let mut check_position: usize = vector.len();
        proof {
            assert(es.take(es.len() as int) =~= es);
        }
        while check_position > 0
            invariant
                check_position <= vector@.len(),
                vector@ == old(vector)@,
                es == dpviews(vector@),
                t == datapoint@.datetime,
                insert_pos(es, t) == insert_pos(es.take(check_position as int), t),
            decreases check_position,
        {
            check_position = check_position - 1;
            proof {
                assert(es.take(check_position + 1).drop_last() =~= es.take(
                    check_position as int,
                ));
                assert(es.take(check_position + 1).last() == es[check_position as int]);
                assert(es[check_position as int] == vector@[check_position as int]@);
            }
            if datetime_lt(vector[check_position].get_datetime(), datapoint.get_datetime()) {
                proof {
                    assert(insert_pos(es, t) == check_position + 1);
                    lemma_dpviews_insert(vector@, check_position + 1, datapoint);
                }
                vector.insert(check_position + 1, datapoint);
                return ;
            }
        }
        proof {
            assert(es.take(0) =~= Seq::<DatapointView>::empty());
            assert(insert_pos(es, t) == 0);
            lemma_dpviews_insert(vector@, 0, datapoint);
        }
        vector.insert(0, datapoint);
    }
}

/// The index of the first stored entry with the given key, or the length.
pub fn find_key(v: &Vec<Datapoint>, key: u64) -> (r: usize)
    ensures
        r == key_index(dpviews(v@), key),
        r <= v@.len(),
{
    let mut i: usize = 0;
    while i < v.len()
        invariant
            i <= v@.len(),
            forall|l: int| 0 <= l < i ==> (#[trigger] dpviews(v@)[l]).key != key,
        decreases v@.len() - i,
    {
        proof {
            assert(dpviews(v@)[i as int] == v@[i as int]@);
        }
        if v[i].get_key() == key {
            proof {
                lemma_key_index(dpviews(v@), key, i as int);
            }
            return i;
        }
        i = i + 1;
    }
    proof {
        lemma_key_index(dpviews(v@), key, v@.len() as int);
    }
    v.len()
}

impl Datastore {
    /// Entries sorted by time, keys unique and within the counter.
    pub open spec fn wf(self) -> bool {
        &&& sorted_by_time(self@.entries)
        &&& unique_keys(self@.entries)
        &&& keys_bounded(self@.entries, self@.counter)
    }

    /// An empty store.
    pub fn new() -> (r: Datastore)
        ensures
            r@.entries == Seq::<DatapointView>::empty(),
            r@.tags == Seq::<Seq<char>>::empty(),
            r@.counter == 0,
            r.wf(),
    {
        let r = Datastore { datapoints: Vec::new(), tags: Vec::new(), counter: 0 };
        proof {
            assert(r@.entries =~= Seq::<DatapointView>::empty());
            assert(r@.tags =~= Seq::<Seq<char>>::empty());
        }
        r
    }

    /// Merges new tags into the vocabulary, in order, skipping those
    /// already present.
    pub fn append_tags(&mut self, tags: &Vec<String>)
        ensures
            final(self)@.tags == merge_tags(old(self)@.tags, str_views(tags@)),
            final(self)@.entries == old(self)@.entries,
            final(self)@.counter == old(self)@.counter,
    {
        let ghost vocab0 = old(self)@.tags;
        let ghost new = str_views(tags@);
        let mut i: usize = 0;
        while i < tags.len()
            invariant
                i <= tags@.len(),
                new == str_views(tags@),
                str_views(self.tags@) =~= merge_tags(vocab0, new.take(i as int)),
                self.datapoints == old(self).datapoints,
                self.counter == old(self).counter,
            decreases tags@.len() - i,
        {
            proof {
                assert(new.take(i + 1).drop_last() =~= new.take(i as int));
                assert(new.take(i + 1).last() == new[i as int]);
                assert(new[i as int] == tags@[i as int]@);
            }
            if !tag_list_contains(&self.tags, &tags[i]) {
                self.tags.push(tags[i].clone());
                proof {
                    assert(str_views(self.tags@) =~= merge_tags(vocab0, new.take(i + 1)));
                }
            }
            i = i + 1;
        }
        proof {
            assert(new.take(new.len() as int) =~= new);
        }
    }

    /// Hands out the next identity key.
    fn increment_counter(&mut self) -> (r: u64)
        requires
            old(self)@.counter < u64::MAX,
        ensures
            final(self)@.counter == old(self)@.counter + 1,
            r == final(self)@.counter,
            final(self)@.entries == old(self)@.entries,
            final(self)@.tags == old(self)@.tags,
    {
        self.counter = self.counter + 1;
        self.counter
    }

    /// Parses the text, keys the new entry with the next counter value,
    /// merges its tags into the vocabulary and inserts it in time order.
    pub fn add_datapoint(&mut self, input: &str) -> (dp: Datapoint)
        requires
            old(self)@.counter < u64::MAX,
        ensures
            dp@.data == data_text(input@),
            dp@.tags == kept_tags(raw_tags(tag_segments(input@))),
            dp@.key == old(self)@.counter + 1,
            exists|now: DateTime|
                now.valid() && dp@.datetime.date == fold_date(
                    raw_tags(tag_segments(input@)),
                    now.date,
                ) && dp@.datetime.time == fold_time(raw_tags(tag_segments(input@)), now.time),
            final(self)@.counter == old(self)@.counter + 1,
            final(self)@.tags == merge_tags(old(self)@.tags, dp@.tags),
            final(self)@.entries == old(self)@.entries.insert(
                insert_pos(old(self)@.entries, dp@.datetime),
                dp@,
            ),
            old(self).wf() ==> final(self).wf(),
    {
        let mut new_datapoint = create_datapoint(input);
        self.append_tags(new_datapoint.get_tags());
        let counter = self.increment_counter();
        new_datapoint.set_key(counter);
        proof {
            if old(self).wf() {
                lemma_insert_sorted(old(self)@.entries, new_datapoint@);
                lemma_insert_fresh_key(old(self)@.entries, new_datapoint@, old(self)@.counter);
            }
        }
        insert_sorted_by_time(new_datapoint.clone(), &mut self.datapoints);
        new_datapoint
    }

    /// Re-parses the text under the same key and replaces the stored entry;
    /// a changed moment re-inserts it in time order, an absent key changes
    /// nothing.
    pub fn update_datapoint(&mut self, input: &str, key: u64) -> (dp: Datapoint)
        ensures
            dp@.data == data_text(input@),
            dp@.tags == kept_tags(raw_tags(tag_segments(input@))),
            dp@.key == key,
            exists|now: DateTime|
                now.valid() && dp@.datetime.date == fold_date(
                    raw_tags(tag_segments(input@)),
                    now.date,
                ) && dp@.datetime.time == fold_time(raw_tags(tag_segments(input@)), now.time),
            final(self)@.counter == old(self)@.counter,
            final(self)@.tags == merge_tags(old(self)@.tags, dp@.tags),
            ({
                let es = old(self)@.entries;
                let i = key_index(es, key);
                if i >= es.len() {
                    final(self)@.entries == es
                } else if es[i].datetime == dp@.datetime {
                    final(self)@.entries == es.update(i, dp@)
                } else {
                    final(self)@.entries == es.remove(i).insert(
                        insert_pos(es.remove(i), dp@.datetime),
                        dp@,
                    )
                }
            }),
            old(self).wf() ==> final(self).wf(),
    {
        let ghost es = old(self)@.entries;
        let mut new_datapoint = create_datapoint(input);
        self.append_tags(new_datapoint.get_tags());
        new_datapoint.set_key(key);
        let i = find_key(&self.datapoints, key);
        proof {
            lemma_key_index_props(es, key);
        }
        if i < self.datapoints.len() {
            let same_moment = {
                let stored = self.datapoints[i].get_datetime();
                let fresh = new_datapoint.get_datetime();
                stored.date.year == fresh.date.year && stored.date.month == fresh.date.month
                    && stored.date.day == fresh.date.day && stored.time.hour == fresh.time.hour
                    && stored.time.minute == fresh.time.minute && stored.time.second
                    == fresh.time.second && stored.time.nano == fresh.time.nano
            };
            proof {
                assert(es[i as int] == self.datapoints@[i as int]@);
            }
            if same_moment {
                proof {
                    assert(es[i as int].datetime == new_datapoint@.datetime);
                    lemma_dpviews_update(self.datapoints@, i as int, new_datapoint);
                    if old(self).wf() {
                        lemma_update_same_moment_wf(es, i as int, new_datapoint@, old(
                            self,
                        )@.counter);
                    }
                }
                self.datapoints.set(i, new_datapoint.clone());
            } else {
                proof {
                    assert(es[i as int].datetime != new_datapoint@.datetime);
                    lemma_dpviews_remove(self.datapoints@, i as int);
                    if old(self).wf() {
                        lemma_remove_keeps_wf(es, i as int, old(self)@.counter);
                        lemma_insert_sorted(es.remove(i as int), new_datapoint@);
                        lemma_reinsert_keys_wf(es, i as int, new_datapoint@, old(self)@.counter);
                    }
                }
                self.datapoints.remove(i);
                insert_sorted_by_time(new_datapoint.clone(), &mut self.datapoints);
            }
        }
        new_datapoint
    }

    /// Removes and returns the first entry with the given key; an absent
    /// key changes nothing.
    pub fn delete_datapoint(&mut self, key: u64) -> (r: Option<Datapoint>)
        ensures
            final(self)@.tags == old(self)@.tags,
            final(self)@.counter == old(self)@.counter,
            ({
                let es = old(self)@.entries;
                let i = key_index(es, key);
                if i < es.len() {
                    r matches Some(d) && d@ == es[i] && d@.key == key && final(self)@.entries
                        == es.remove(i)
                } else {
                    r is None && final(self)@.entries == es
                }
            }),
            old(self).wf() ==> final(self).wf(),
    {
        let ghost es = old(self)@.entries;
        let i = find_key(&self.datapoints, key);
        proof {
            lemma_key_index_props(es, key);
        }
        if i < self.datapoints.len() {
            proof {
                assert(es[i as int] == self.datapoints@[i as int]@);
                lemma_dpviews_remove(self.datapoints@, i as int);
                if old(self).wf() {
                    lemma_remove_keeps_wf(es, i as int, old(self)@.counter);
                }
            }
            let removed = self.datapoints.remove(i);
            Some(removed)
        } else {
            None
        }
    }

    /// A snapshot of the stored entries, in time order.
    pub fn retrieve_datapoints(&self) -> (r: Vec<Datapoint>)
        ensures
            dpviews(r@) == self@.entries,
    {
        clone_datapoints(&self.datapoints)
    }

    /// A snapshot of the tag vocabulary, in first-seen order.
    pub fn retrieve_taglist(&self) -> (r: Vec<String>)
        ensures
            str_views(r@) == self@.tags,
    {
        clone_strings(&self.tags)
    }

    /// Answers a raw query: an all-matching query returns every entry; any
    /// other returns the entries carrying every required tag, run through
    /// the modifier pipeline.
    pub fn query(&self, query: &str) -> (r: QueryResult)
        ensures
            r@.query == parse_spec(query@),
            r@.entries == query_spec(self@.entries, parse_spec(query@)),
            r.wf(),
    {
        let ghost es = self@.entries;
        let parsed = ParsedQuery::parse(query);
        let datapoints = self.retrieve_datapoints();
        if parsed.empty() {
            return QueryResult::from(datapoints, parsed);
        }
        let ghost terms = parsed@;
        let mut collector: Vec<Datapoint> = Vec::new();
        let mut i: usize = 0;
        while i < datapoints.len()
            invariant
                i <= datapoints@.len(),
                es == dpviews(datapoints@),
                terms == parsed@,
                parsed.wf(),
                dpviews(collector@) =~= es.take(i as int).filter(
                    |d: DatapointView| matches_all(terms, d.tags),
                ),
            decreases datapoints@.len() - i,
        {
            proof {
                assert(es.take(i + 1).drop_last() =~= es.take(i as int));
                assert(es.take(i + 1).last() == es[i as int]);
                assert(es[i as int] == datapoints@[i as int]@);
                reveal_with_fuel(Seq::filter, 2);
            }
            if parsed.can_all_be_found_in(datapoints[i].get_tags()) {
                collector.push(datapoints[i].clone());
            }
            i = i + 1;
            proof {
                assert(dpviews(collector@) =~= es.take(i as int).filter(
                    |d: DatapointView| matches_all(terms, d.tags),
                ));
            }
        }
        proof {
            assert(es.take(es.len() as int) =~= es);
        }
        QueryResult::from(collector, parsed).apply_query_commands()
    }

    /// Rebuilds a store from saved entries: the counter resumes past the
    /// largest key, and the vocabulary is merged entry by entry.
    pub fn from_datapoints(datapoints: Vec<Datapoint>) -> (r: Datastore)
        ensures
            r@.entries == dpviews(datapoints@),
            r@.counter == max_key(dpviews(datapoints@)),
            r@.tags == vocab_of(dpviews(datapoints@)),
            sorted_by_time(dpviews(datapoints@)) && unique_keys(dpviews(datapoints@)) ==> r.wf(),
    {
        let ghost es = dpviews(datapoints@);
        let mut top: u64 = 0;
        let mut i: usize = 0;
        while i < datapoints.len()
            invariant
                i <= datapoints@.len(),
                es == dpviews(datapoints@),
                top == max_key(es.take(i as int)),
            decreases datapoints@.len() - i,
        {
            proof {
                assert(es.take(i + 1).drop_last() =~= es.take(i as int));
                assert(es.take(i + 1).last() == es[i as int]);
                assert(es[i as int] == datapoints@[i as int]@);
            }
            let key = datapoints[i].get_key();
            if top < key {
                top = key;
            }
            i = i + 1;
        }
        let mut store = Datastore { datapoints, tags: Vec::new(), counter: top };
        proof {
            assert(es.take(es.len() as int) =~= es);
            assert(str_views(store.tags@) =~= Seq::<Seq<char>>::empty());
        }
        let mut j: usize = 0;
        while j < store.datapoints.len()
            invariant
                j <= store.datapoints@.len(),
                es == dpviews(store.datapoints@),
                store.counter == max_key(es),
                str_views(store.tags@) =~= vocab_of(es.take(j as int)),
            decreases store.datapoints@.len() - j,
        {
            proof {
                assert(es.take(j + 1).drop_last() =~= es.take(j as int));
                assert(es.take(j + 1).last() == es[j as int]);
                assert(es[j as int] == store.datapoints@[j as int]@);
            }
            let tags = clone_strings(store.datapoints[j].get_tags());
            store.append_tags(&tags);
            j = j + 1;
        }
        proof {
            assert(es.take(es.len() as int) =~= es);
            lemma_max_key_ge(es);
        }
        store
    }
}

/// An entry with one tag appended, or with every occurrence of it removed.
pub open spec fn tag_edit(d: DatapointView, tag: Seq<char>, add: bool) -> DatapointView {
    if add {
        DatapointView { tags: d.tags.push(tag), ..d }
    } else {
        DatapointView { tags: d.tags.filter(|t: Seq<char>| t != tag), ..d }
    }
}

/// The entries after editing one tag under each key in turn; an absent key
/// changes nothing.
pub open spec fn batch_entries(
    es: Seq<DatapointView>,
    tag: Seq<char>,
    keys: Seq<u64>,
    add: bool,
) -> Seq<DatapointView>
    decreases keys.len(),
{
    if keys.len() == 0 {
        es
    } else {
        let prev = batch_entries(es, tag, keys.drop_last(), add);
        let i = key_index(prev, keys.last());
        if i < prev.len() {
            prev.update(i, tag_edit(prev[i], tag, add))
        } else {
            prev
        }
    }
}

/// The updated entries handed back, in the order their keys were given.
pub open spec fn batch_outputs(
    es: Seq<DatapointView>,
    tag: Seq<char>,
    keys: Seq<u64>,
    add: bool,
) -> Seq<DatapointView>
    decreases keys.len(),
{
    if keys.len() == 0 {
        Seq::<DatapointView>::empty()
    } else {
        let prev = batch_entries(es, tag, keys.drop_last(), add);
        let pre = batch_outputs(es, tag, keys.drop_last(), add);
        let i = key_index(prev, keys.last());
        if i < prev.len() {
            pre.push(tag_edit(prev[i], tag, add))
        } else {
            pre
        }
    }
}

/// Tag edits leave every entry's moment and key in place.
pub proof fn lemma_batch_preserves(
    es: Seq<DatapointView>,
    tag: Seq<char>,
    keys: Seq<u64>,
    add: bool,
)
    ensures
        batch_entries(es, tag, keys, add).len() == es.len(),
        forall|j: int|
            0 <= j < es.len() ==> (#[trigger] batch_entries(es, tag, keys, add)[j]).datetime
                == es[j].datetime && batch_entries(es, tag, keys, add)[j].key == es[j].key,
    decreases keys.len(),
{
    if keys.len() > 0 {
        lemma_batch_preserves(es, tag, keys.drop_last(), add);
        lemma_key_index_props(batch_entries(es, tag, keys.drop_last(), add), keys.last());
    }
}

/// Tag edits keep the store well-formed.
pub proof fn lemma_batch_wf(
    es: Seq<DatapointView>,
    tag: Seq<char>,
    keys: Seq<u64>,
    add: bool,
    counter: u64,
)
    requires
        sorted_by_time(es),
        unique_keys(es),
        keys_bounded(es, counter),
    ensures
        sorted_by_time(batch_entries(es, tag, keys, add)),
        unique_keys(batch_entries(es, tag, keys, add)),
        keys_bounded(batch_entries(es, tag, keys, add), counter),
{
    lemma_batch_preserves(es, tag, keys, add);
}

impl Datastore {
    /// Adds or removes one tag across the entries under the given keys, in
    /// order, and returns the updated entries; absent keys are skipped.
    pub fn batch_operation(&mut self, tag: &str, keys: Vec<u64>, add: bool) -> (r: Vec<Datapoint>)
        ensures
            final(self)@.entries == batch_entries(old(self)@.entries, tag@, keys@, add),
            dpviews(r@) == batch_outputs(old(self)@.entries, tag@, keys@, add),
            final(self)@.counter == old(self)@.counter,
            add ==> final(self)@.tags == merge_tags(old(self)@.tags, seq![tag@]),
            !add ==> final(self)@.tags == old(self)@.tags,
            old(self).wf() ==> final(self).wf(),
    {
        let ghost es0 = old(self)@.entries;
        let tag_string: String = tag.to_owned();
        if add {
            let singleton = vec![tag_string.clone()];
            proof {
                assert(str_views(singleton@) =~= seq![tag@]);
            }
            self.append_tags(&singleton);
        }
        let ghost vocab_after = self@.tags;
        let mut out: Vec<Datapoint> = Vec::new();
        let mut i: usize = 0;
        while i < keys.len()
            invariant
                i <= keys@.len(),
                es0 == old(self)@.entries,
                tag_string@ == tag@,
                self.counter == old(self).counter,
                str_views(self.tags@) == vocab_after,
                dpviews(self.datapoints@) =~= batch_entries(es0, tag@, keys@.take(i as int), add),
                dpviews(out@) =~= batch_outputs(es0, tag@, keys@.take(i as int), add),
            decreases keys@.len() - i,
        {
            let ghost prev = batch_entries(es0, tag@, keys@.take(i as int), add);
            proof {
                assert(keys@.take(i + 1).drop_last() =~= keys@.take(i as int));
                assert(keys@.take(i + 1).last() == keys@[i as int]);
                lemma_key_index_props(prev, keys@[i as int]);
            }
            let idx = find_key(&self.datapoints, keys[i]);
            if idx < self.datapoints.len() {
                proof {
                    let ghost ii = idx as int;
                    assert(dpviews(self.datapoints@)[ii] == self.datapoints@[ii]@);
                }
                let ghost dv = tag_edit(prev[idx as int], tag@, add);
                let mut d = self.datapoints[idx].clone();
                if add {
                    d.add_tag(&tag_string);
                } else {
                    d.remove_tag(&tag_string);
                }
                proof {
                    assert(d@ == dv);
                }
                out.push(d.clone());
                self.datapoints.set(idx, d);
                proof {
                    assert(self.datapoints@[idx as int]@ == dv);
                    assert(dpviews(self.datapoints@) =~= prev.update(idx as int, dv));
                    assert(dpviews(self.datapoints@) =~= batch_entries(
                        es0,
                        tag@,
                        keys@.take(i + 1),
                        add,
                    ));
                    assert(dpviews(out@) =~= batch_outputs(es0, tag@, keys@.take(i + 1), add));
                }
            }
            i = i + 1;
        }
        proof {
            assert(keys@.take(keys@.len() as int) =~= keys@);
            if old(self).wf() {
                lemma_batch_wf(es0, tag@, keys@, add, old(self)@.counter);
            }
        }
        out
    }
}

/// Replacing an entry by one with the same moment and key keeps the store
/// well-formed.
pub proof fn lemma_update_same_moment_wf(
    es: Seq<DatapointView>,
    i: int,
    dv: DatapointView,
    counter: u64,
)
    requires
        0 <= i < es.len(),
        sorted_by_time(es),
        unique_keys(es),
        keys_bounded(es, counter),
        dv.datetime == es[i].datetime,
        dv.key == es[i].key,
    ensures
        sorted_by_time(es.update(i, dv)),
        unique_keys(es.update(i, dv)),
        keys_bounded(es.update(i, dv), counter),
{
}

/// Removing the only entry with a key and re-inserting a fresh entry under
/// that key keeps keys unique and bounded.
pub proof fn lemma_reinsert_keys_wf(es: Seq<DatapointView>, i: int, dv: DatapointView, counter: u64)
    requires
        0 <= i < es.len(),
        unique_keys(es),
        keys_bounded(es, counter),
        dv.key == es[i].key,
    ensures
        unique_keys(es.remove(i).insert(insert_pos(es.remove(i), dv.datetime), dv)),
        keys_bounded(es.remove(i).insert(insert_pos(es.remove(i), dv.datetime), dv), counter),
{
    let rs = es.remove(i);
    es.remove_ensures(i);
    let pos = insert_pos(rs, dv.datetime);
    lemma_insert_pos_facts(rs, dv.datetime);
    rs.insert_ensures(pos, dv);
    let ns = rs.insert(pos, dv);
    assert forall|a: int, b: int| 0 <= a < b < ns.len() implies (#[trigger] ns[a]).key != (
    #[trigger] ns[b]).key by {
        if a != pos && b != pos {
            let oa: int = if a < pos {
                a
            } else {
                a - 1
            };
            let ob: int = if b < pos {
                b
            } else {
                b - 1
            };
            assert(ns[a] == rs[oa] && ns[b] == rs[ob]);
            let ra: int = if oa < i {
                oa
            } else {
                oa + 1
            };
            let rb: int = if ob < i {
                ob
            } else {
                ob + 1
            };
            assert(rs[oa] == es[ra] && rs[ob] == es[rb]);
        } else {
            let o: int = if a == pos {
                b
            } else {
                a
            };
            let oo: int = if o < pos {
                o
            } else {
                o - 1
            };
            assert(ns[o] == rs[oo]);
            let ro: int = if oo < i {
                oo
            } else {
                oo + 1
            };
            assert(rs[oo] == es[ro]);
            assert(es[ro].key != es[i].key);
        }
    }
    assert forall|a: int| 0 <= a < ns.len() implies (#[trigger] ns[a]).key <= counter by {
        if a != pos {
            let oa: int = if a < pos {
                a
            } else {
                a - 1
            };
            assert(ns[a] == rs[oa]);
            let ra: int = if oa < i {
                oa
            } else {
                oa + 1
            };
            assert(rs[oa] == es[ra]);
        }
    }
}

impl From<Vec<Datapoint>> for Datastore {
    /// Rebuilds a store from saved entries.
    fn from(datapoints: Vec<Datapoint>) -> (r: Datastore) {
        Datastore::from_datapoints(datapoints)
    }
}

impl vstd::std_specs::convert::FromSpecImpl<Vec<Datapoint>> for Datastore {
    open spec fn obeys_from_spec() -> bool {
        false
    }

    open spec fn from_spec(v: Vec<Datapoint>) -> Datastore {
        arbitrary()
    }
}

} // verus!
