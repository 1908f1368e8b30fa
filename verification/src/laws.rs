//! The laws the store and the query pipeline obey, stated over the same
//! spec functions the public contracts use.
use vstd::prelude::*;

use crate::clock::ymd_parse;
use crate::datapoint::DatapointView;
use crate::datastore::{
    insert_pos, key_index, lemma_key_index_props, lemma_remove_keeps_wf, merge_tags, query_spec,
    sorted_by_time, unique_keys, keys_bounded, Datastore, lemma_insert_sorted,
};
use crate::datetime::{before, Date};
use crate::parsedquery::{matches_all, parse_spec, query_empty};
use crate::queryresult::{
    apply_command_spec, apply_commands, date_cutoff, from_date_spec, lead_below, select_date_spec,
    strip_all, without_tag,
};
use crate::text::{lower_of, plus_to_space, split_space, trim, trim_end, ws_tokens};

verus! {

// ---------------------------------------------------------------------------
// Small general helpers.
// ---------------------------------------------------------------------------
/// A filtered sequence only holds elements of the sequence it came from.
pub proof fn lemma_filter_subset<A>(s: Seq<A>, pred: spec_fn(A) -> bool, i: int)
    requires
        0 <= i < s.filter(pred).len(),
    ensures
        s.contains(s.filter(pred)[i]),
    decreases s.len(),
{
    reveal_with_fuel(Seq::filter, 2);
    if s.len() > 0 {
        let sub = s.drop_last().filter(pred);
        if pred(s.last()) && i == s.filter(pred).len() - 1 {
            assert(s.filter(pred)[i] == s.last());
            assert(s[s.len() - 1] == s.last());
        } else {
            lemma_filter_subset(s.drop_last(), pred, i);
            let j = choose|j: int| 0 <= j < s.drop_last().len() && s.drop_last()[j] == sub[i];
            assert(s[j] == sub[i]);
        }
    }
}

/// Filtering keeps nothing when no element satisfies the predicate.
pub proof fn lemma_filter_none<A>(s: Seq<A>, pred: spec_fn(A) -> bool)
    requires
        forall|i: int| 0 <= i < s.len() ==> !pred(#[trigger] s[i]),
    ensures
        s.filter(pred) =~= Seq::<A>::empty(),
    decreases s.len(),
{
    reveal_with_fuel(Seq::filter, 2);
    if s.len() > 0 {
        assert(forall|i: int|
            0 <= i < s.drop_last().len() ==> !pred(#[trigger] s.drop_last()[i]));
        lemma_filter_none(s.drop_last(), pred);
        assert(!pred(s[s.len() - 1]));
    }
}

/// Filtering keeps everything when every element satisfies the predicate.
pub proof fn lemma_filter_all<A>(s: Seq<A>, pred: spec_fn(A) -> bool)
    requires
        forall|i: int| 0 <= i < s.len() ==> pred(#[trigger] s[i]),
    ensures
        s.filter(pred) =~= s,
    decreases s.len(),
{
    reveal_with_fuel(Seq::filter, 2);
    if s.len() > 0 {
        assert(forall|i: int| 0 <= i < s.drop_last().len() ==> pred(#[trigger] s.drop_last()[i]));
        lemma_filter_all(s.drop_last(), pred);
        assert(pred(s[s.len() - 1]));
        assert(s.drop_last().filter(pred).push(s.last()) =~= s);
    }
}

/// The leading-run count stays within the sequence.
pub proof fn lemma_lead_below_range(es: Seq<DatapointView>, cutoff: crate::datetime::DateTime)
    ensures
        0 <= lead_below(es, cutoff) <= es.len(),
    decreases es.len(),
{
    if es.len() > 0 && before(es[0].datetime, cutoff) {
        lemma_lead_below_range(es.skip(1), cutoff);
    }
}

// ---------------------------------------------------------------------------
// Time order of the store.
// ---------------------------------------------------------------------------
/// The entries of a well-formed store stand in non-decreasing time order,
/// however they were added.
pub proof fn law_entries_time_ordered(s: Datastore)
    requires
        s.wf(),
    ensures
        sorted_by_time(s@.entries),
{
}

/// After an update of a present key in a time-ordered store the entries are
/// time-ordered again: in place when the moment is unchanged, re-inserted
/// when it changed.
pub proof fn law_update_keeps_order(es: Seq<DatapointView>, i: int, dv: DatapointView)
    requires
        sorted_by_time(es),
        0 <= i < es.len(),
    ensures
        dv.datetime == es[i].datetime ==> sorted_by_time(es.update(i, dv)),
        dv.datetime != es[i].datetime ==> sorted_by_time(
            es.remove(i).insert(insert_pos(es.remove(i), dv.datetime), dv),
        ),
{
    if dv.datetime == es[i].datetime {
        let ns = es.update(i, dv);
        assert forall|a: int, b: int| 0 <= a < b < ns.len() implies !before(
            #[trigger] ns[b].datetime,
            #[trigger] ns[a].datetime,
        ) by {
            assert(ns[a].datetime == es[a].datetime);
            assert(ns[b].datetime == es[b].datetime);
        }
    } else {
        lemma_sorted_remove(es, i);
        lemma_insert_sorted(es.remove(i), dv);
    }
}

/// Removing an entry keeps the time order.
pub proof fn lemma_sorted_remove(es: Seq<DatapointView>, i: int)
    requires
        sorted_by_time(es),
        0 <= i < es.len(),
    ensures
        sorted_by_time(es.remove(i)),
{
    es.remove_ensures(i);
    let rs = es.remove(i);
    assert forall|a: int, b: int| 0 <= a < b < rs.len() implies !before(
        #[trigger] rs[b].datetime,
        #[trigger] rs[a].datetime,
    ) by {
        let ra: int = if a < i {
            a
        } else {
            a + 1
        };
        let rb: int = if b < i {
            b
        } else {
            b + 1
        };
        assert(rs[a] == es[ra] && rs[b] == es[rb]);
    }
}

// ---------------------------------------------------------------------------
// The all-matching query.
// ---------------------------------------------------------------------------
/// A blank query text parses to an all-matching query.
pub proof fn law_blank_query_matches_all()
    ensures
        query_empty(parse_spec(Seq::<char>::empty())),
{
    let e = Seq::<char>::empty();
    assert(trim_end(e) == e);
    assert(trim(e) == e);
    assert(trim(e).map_values(|c: char| plus_to_space(c)) =~= e);
    assert(split_space(e) =~= seq![Seq::<char>::empty()]);
    reveal_with_fuel(Seq::filter, 2);
    assert(ws_tokens(e).len() == 0);
    assert(parse_spec(e).len() == 0);
}

/// An all-matching query returns every entry, untouched.
pub proof fn law_empty_query_returns_all(es: Seq<DatapointView>, terms: Seq<Seq<Seq<char>>>)
    requires
        query_empty(terms),
    ensures
        query_spec(es, terms) == es,
{
}

/// Querying with the empty text returns every entry, untouched.
pub proof fn law_blank_text_query_returns_all(es: Seq<DatapointView>)
    ensures
        query_spec(es, parse_spec(""@)) == es,
{
    reveal_strlit("");
    assert(""@ =~= Seq::<char>::empty());
    law_blank_query_matches_all();
}

// ---------------------------------------------------------------------------
// Deletion.
// ---------------------------------------------------------------------------
/// In a store with unique keys, deleting a present key removes exactly the
/// one entry carrying it; an absent key names no entry at all.
pub proof fn law_delete_removes_exactly_one(es: Seq<DatapointView>, key: u64, counter: u64)
    requires
        sorted_by_time(es),
        unique_keys(es),
        keys_bounded(es, counter),
    ensures
        key_index(es, key) < es.len() ==> {
            let rs = es.remove(key_index(es, key));
            &&& es[key_index(es, key)].key == key
            &&& rs.len() + 1 == es.len()
            &&& forall|l: int| 0 <= l < rs.len() ==> (#[trigger] rs[l]).key != key
        },
        key_index(es, key) == es.len() ==> (forall|l: int|
            0 <= l < es.len() ==> (#[trigger] es[l]).key != key),
{
    lemma_key_index_props(es, key);
    if key_index(es, key) < es.len() {
        lemma_remove_keeps_wf(es, key_index(es, key), counter);
    }
}

// ---------------------------------------------------------------------------
// Query semantics.
// ---------------------------------------------------------------------------
/// The pipeline only reshapes payloads and drops entries: the tag set of
/// every surviving entry is the tag set of some selected entry.
pub proof fn lemma_pipeline_keeps_tags(
    es: Seq<DatapointView>,
    terms: Seq<Seq<Seq<char>>>,
    d: DatapointView,
)
    requires
        apply_commands(es, terms).contains(d),
    ensures
        exists|e: DatapointView| #[trigger] es.contains(e) && e.tags == d.tags,
    decreases terms.len(),
{
    if terms.len() == 0 {
        assert(es.contains(d) && d.tags == d.tags);
    } else {
        let prev = apply_commands(es, terms.drop_last());
        let cmd = terms.last();
        if cmd.len() > 1 {
            let out = apply_command_spec(prev, cmd);
            let p = lemma_command_keeps_tags(prev, cmd, d);
            lemma_pipeline_keeps_tags(es, terms.drop_last(), p);
        } else {
            lemma_pipeline_keeps_tags(es, terms.drop_last(), d);
        }
    }
}

/// One pipeline command keeps the tag set of every surviving entry; the
/// witness entry of the input is returned.
pub proof fn lemma_command_keeps_tags(
    prev: Seq<DatapointView>,
    cmd: Seq<Seq<char>>,
    d: DatapointView,
) -> (p: DatapointView)
    requires
        apply_command_spec(prev, cmd).contains(d),
    ensures
        prev.contains(p),
        p.tags == d.tags,
{
    let m = lower_of(cmd[1]);
    if m == "date"@ {
        lemma_date_subset(prev, cmd, d)
    } else if m == "value"@ {
        let out = strip_all(prev);
        let j = choose|j: int| 0 <= j < out.len() && out[j] == d;
        assert(prev.contains(prev[j]));
        prev[j]
    } else if m == "exclude"@ {
        let out = without_tag(prev, cmd[0]);
        let j = choose|j: int| 0 <= j < out.len() && out[j] == d;
        lemma_filter_subset(prev, |x: DatapointView| !x.tags.contains(cmd[0]), j);
        d
    } else {
        assert(prev.contains(d));
        d
    }
}

/// The date command only selects entries; the witness is returned.
pub proof fn lemma_date_subset(
    prev: Seq<DatapointView>,
    cmd: Seq<Seq<char>>,
    d: DatapointView,
) -> (p: DatapointView)
    requires
        select_date_spec(prev, cmd).contains(d),
    ensures
        prev.contains(p),
        p.tags == d.tags,
{
    if cmd.len() < 4 {
        assert(prev.contains(d));
        d
    } else {
        let sub = lower_of(cmd[2]);
        if sub == "start"@ || sub == "from"@ || sub == "till"@ || sub == "until"@ || sub
            == "end"@ {
            let keep_from = sub == "start"@ || sub == "from"@;
            match ymd_parse(cmd[3]) {
                None => {
                    assert(prev.contains(d));
                    d
                },
                Some(parsed) => {
                    let k = lead_below(prev, date_cutoff(parsed, keep_from));
                    lemma_lead_below_range(prev, date_cutoff(parsed, keep_from));
                    if keep_from {
                        let out = prev.skip(k);
                        let j = choose|j: int| 0 <= j < out.len() && out[j] == d;
                        assert(prev[j + k] == d);
                        assert(prev.contains(prev[j + k]));
                        d
                    } else {
                        let out = prev.take(k);
                        let j = choose|j: int| 0 <= j < out.len() && out[j] == d;
                        assert(prev[j] == d);
                        assert(prev.contains(prev[j]));
                        d
                    }
                },
            }
        } else {
            assert(prev.contains(d));
            d
        }
    }
}

/// A query with terms returns only entries that carry every required tag,
/// excluded terms aside.
pub proof fn law_query_needs_all_tags(
    es: Seq<DatapointView>,
    terms: Seq<Seq<Seq<char>>>,
    d: DatapointView,
)
    requires
        !query_empty(terms),
        query_spec(es, terms).contains(d),
    ensures
        matches_all(terms, d.tags),
{
    let base = es.filter(|x: DatapointView| matches_all(terms, x.tags));
    lemma_pipeline_keeps_tags(base, terms, d);
    let e = choose|e: DatapointView| #[trigger] base.contains(e) && e.tags == d.tags;
    let j = choose|j: int| 0 <= j < base.len() && base[j] == e;
    es.filter_lemma(|x: DatapointView| matches_all(terms, x.tags));
}

/// After an exclude command no surviving entry carries the excluded tag.
pub proof fn law_exclude_removes_tag(prev: Seq<DatapointView>, cmd: Seq<Seq<char>>)
    requires
        lower_of(cmd[1]) == "exclude"@,
    ensures
        forall|d: DatapointView|
            #[trigger] apply_command_spec(prev, cmd).contains(d) ==> !d.tags.contains(cmd[0]),
{
    reveal_strlit("date");
    reveal_strlit("value");
    reveal_strlit("exclude");
    assert("date"@.len() == 4 && "value"@.len() == 5 && "exclude"@.len() == 7);
    let pred = |x: DatapointView| !x.tags.contains(cmd[0]);
    assert forall|d: DatapointView| #[trigger] apply_command_spec(prev, cmd).contains(d) implies
        !d.tags.contains(cmd[0]) by {
        let out = prev.filter(pred);
        assert(apply_command_spec(prev, cmd) == out);
        let j = choose|j: int| 0 <= j < out.len() && out[j] == d;
        prev.filter_lemma(pred);
    }
}

// ---------------------------------------------------------------------------
// Date bounds.
// ---------------------------------------------------------------------------
/// A malformed date text leaves the entries untouched.
pub proof fn law_malformed_date_is_noop(
    es: Seq<DatapointView>,
    dtext: Seq<char>,
    keep_from: bool,
)
    requires
        ymd_parse(dtext) is None,
    ensures
        from_date_spec(es, dtext, keep_from) == es,
{
}

/// Over time-ordered entries, the from-filter keeps exactly the entries not
/// before the day's first second, and the until-filter exactly those before
/// the day's last second.
pub proof fn law_date_filter_selects(
    es: Seq<DatapointView>,
    dtext: Seq<char>,
    keep_from: bool,
    d: Date,
)
    requires
        sorted_by_time(es),
        ymd_parse(dtext) == Some(d),
    ensures
        keep_from ==> from_date_spec(es, dtext, true) == es.filter(
            |x: DatapointView| !before(x.datetime, date_cutoff(d, true)),
        ),
        !keep_from ==> from_date_spec(es, dtext, false) == es.filter(
            |x: DatapointView| before(x.datetime, date_cutoff(d, false)),
        ),
{
    broadcast use vstd::seq_lib::group_seq_properties;

    let cutoff = date_cutoff(d, keep_from);
    let k = lead_below(es, cutoff);
    lemma_lead_below_range(es, cutoff);
    assert forall|l: int| 0 <= l < k implies before((#[trigger] es[l]).datetime, cutoff) by {
        lemma_lead_below_prefix(es, cutoff, l);
    }
    assert forall|j: int| k <= j < es.len() implies !before(
        (#[trigger] es[j]).datetime,
        cutoff,
    ) by {
        lemma_lead_below_stop(es, cutoff);
        if j > k {
            assert(!before(es[j].datetime, es[k].datetime));
        }
    }
    let lo = es.take(k);
    let hi = es.skip(k);
    assert(es =~= lo + hi);
    if keep_from {
        let pred = |x: DatapointView| !before(x.datetime, cutoff);
        Seq::filter_distributes_over_add(lo, hi, pred);
        lemma_filter_none(lo, pred);
        lemma_filter_all(hi, pred);
        assert(es.filter(pred) =~= hi);
    } else {
        let pred = |x: DatapointView| before(x.datetime, cutoff);
        Seq::filter_distributes_over_add(lo, hi, pred);
        lemma_filter_all(lo, pred);
        lemma_filter_none(hi, pred);
        assert(es.filter(pred) =~= lo);
    }
}

/// Every entry of the leading run is before the cutoff.
pub proof fn lemma_lead_below_prefix(
    es: Seq<DatapointView>,
    cutoff: crate::datetime::DateTime,
    l: int,
)
    requires
        0 <= l < lead_below(es, cutoff),
    ensures
        before(es[l].datetime, cutoff),
    decreases l,
{
    lemma_lead_below_range(es, cutoff);
    if l > 0 {
        lemma_lead_below_prefix(es.skip(1), cutoff, l - 1);
        assert(es.skip(1)[l - 1] == es[l]);
    }
}

/// The entry right after the leading run, if any, is not before the cutoff.
pub proof fn lemma_lead_below_stop(es: Seq<DatapointView>, cutoff: crate::datetime::DateTime)
    ensures
        lead_below(es, cutoff) < es.len() ==> !before(
            es[lead_below(es, cutoff)].datetime,
            cutoff,
        ),
    decreases es.len(),
{
    if es.len() > 0 && before(es[0].datetime, cutoff) {
        lemma_lead_below_stop(es.skip(1), cutoff);
        lemma_lead_below_range(es.skip(1), cutoff);
        if lead_below(es, cutoff) < es.len() {
            assert(es.skip(1)[lead_below(es.skip(1), cutoff)] == es[lead_below(es, cutoff)]);
        }
    }
}

// ---------------------------------------------------------------------------
// The tag vocabulary.
// ---------------------------------------------------------------------------
/// No two vocabulary entries agree.
pub open spec fn distinct_texts(s: Seq<Seq<char>>) -> bool {
    forall|i: int, j: int| 0 <= i < j < s.len() ==> s[i] != s[j]
}

/// Merging keeps the vocabulary free of duplicates.
pub proof fn law_merge_keeps_distinct(vocab: Seq<Seq<char>>, new: Seq<Seq<char>>)
    requires
        distinct_texts(vocab),
    ensures
        distinct_texts(merge_tags(vocab, new)),
    decreases new.len(),
{
    if new.len() > 0 {
        law_merge_keeps_distinct(vocab, new.drop_last());
        let pre = merge_tags(vocab, new.drop_last());
        if !pre.contains(new.last()) {
            let ns = pre.push(new.last());
            assert forall|i: int, j: int| 0 <= i < j < ns.len() implies ns[i] != ns[j] by {
                if j == ns.len() - 1 {
                    assert(ns[j] == new.last());
                    assert(ns[i] == pre[i]);
                    if ns[i] == new.last() {
                        assert(pre.contains(pre[i]));
                    }
                }
            }
        }
    }
}

} // verus!
