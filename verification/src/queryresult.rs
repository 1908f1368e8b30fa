//! Query results and the post-filter command pipeline: the `value`,
//! `exclude` and `date` modifiers, applied in query order.
use vstd::prelude::*;

use crate::clock::{parse_ymd, ymd_parse};
use crate::datapoint::{clone_datapoints, dpviews, Datapoint, DatapointView};
use crate::datetime::{before, datetime_lt, Date, DateTime, Time};
use crate::parsedquery::{term_views, ParsedQuery};
use crate::text::{
    clone_strings, lower_of, numeric_part, numeric_text, str_eq, str_views, string_of,
    to_lowercase, vec_numeric_part, chars_of,
};

verus! {

/// An entry with its payload reduced to digits and dots.
pub open spec fn stripped_view(d: DatapointView) -> DatapointView {
    DatapointView { data: numeric_part(d.data), ..d }
}

/// Every entry stripped to its numeric payload.
pub open spec fn strip_all(es: Seq<DatapointView>) -> Seq<DatapointView> {
    es.map_values(|d: DatapointView| stripped_view(d))
}

/// The entries that do not carry the given tag.
pub open spec fn without_tag(es: Seq<DatapointView>, tag: Seq<char>) -> Seq<DatapointView> {
    es.filter(|d: DatapointView| !d.tags.contains(tag))
}

/// How many leading entries fall strictly before the cutoff.
pub open spec fn lead_below(es: Seq<DatapointView>, cutoff: DateTime) -> int
    decreases es.len(),
{
    if es.len() > 0 && before(es[0].datetime, cutoff) {
        1 + lead_below(es.skip(1), cutoff)
    } else {
        0
    }
}

pub proof fn lemma_lead_below(es: Seq<DatapointView>, cutoff: DateTime, k: int)
    requires
        0 <= k <= es.len(),
        forall|l: int| 0 <= l < k ==> before((#[trigger] es[l]).datetime, cutoff),
        k < es.len() ==> !before(es[k].datetime, cutoff),
    ensures
        lead_below(es, cutoff) == k,
    decreases k,
{
    if k == 0 {
    } else {
        lemma_lead_below(es.skip(1), cutoff, k - 1);
    }
}

/// The cutoff moment a date filter compares against: the very start of the
/// day when keeping entries from the date on, the last second of the day
/// before when keeping entries until the date.
pub open spec fn date_cutoff(d: Date, keep_from: bool) -> DateTime {
    if keep_from {
        DateTime { date: d, time: Time { hour: 0, minute: 0, second: 0, nano: 0 } }
    } else {
        DateTime { date: d, time: Time { hour: 23, minute: 59, second: 59, nano: 0 } }
    }
}

/// The date filter: a malformed date text keeps everything; otherwise the
/// leading run of entries before the cutoff is cut away (`keep_from`) or
/// kept (`!keep_from`).
pub open spec fn from_date_spec(
    es: Seq<DatapointView>,
    dtext: Seq<char>,
    keep_from: bool,
) -> Seq<DatapointView> {
    match ymd_parse(dtext) {
        None => es,
        Some(d) => {
            let k = lead_below(es, date_cutoff(d, keep_from));
            if keep_from {
                es.skip(k)
            } else {
                es.take(k)
            }
        },
    }
}

/// The date sub-command: fewer than four parts or an unknown sub-selector
/// keep everything.
pub open spec fn select_date_spec(es: Seq<DatapointView>, cmd: Seq<Seq<char>>) -> Seq<
    DatapointView,
> {
    if cmd.len() < 4 {
        es
    } else {
        let sub = lower_of(cmd[2]);
        if sub == "start"@ || sub == "from"@ {
            from_date_spec(es, cmd[3], true)
        } else if sub == "till"@ || sub == "until"@ || sub == "end"@ {
            from_date_spec(es, cmd[3], false)
        } else {
            es
        }
    }
}

/// One pipeline command: `date`, `value`, `exclude`, or a no-op for an
/// unknown modifier.
pub open spec fn apply_command_spec(es: Seq<DatapointView>, cmd: Seq<Seq<char>>) -> Seq<
    DatapointView,
> {
    let m = lower_of(cmd[1]);
    if m == "date"@ {
        select_date_spec(es, cmd)
    } else if m == "value"@ {
        strip_all(es)
    } else if m == "exclude"@ {
        without_tag(es, cmd[0])
    } else {
        es
    }
}

/// The whole pipeline: every term carrying a modifier, in query order.
pub open spec fn apply_commands(es: Seq<DatapointView>, terms: Seq<Seq<Seq<char>>>) -> Seq<
    DatapointView,
>
    decreases terms.len(),
{
    if terms.len() == 0 {
        es
    } else {
        let prev = apply_commands(es, terms.drop_last());
        if terms.last().len() > 1 {
            apply_command_spec(prev, terms.last())
        } else {
            prev
        }
    }
}

/// Every entry stripped to its numeric payload.
pub fn strip_non_numeric(datapoints: Vec<Datapoint>) -> (r: Vec<Datapoint>)
    ensures
        dpviews(r@) == strip_all(dpviews(datapoints@)),
{
    let mut out: Vec<Datapoint> = Vec::new();
    let mut i: usize = 0;
    while i < datapoints.len()
        invariant
            i <= datapoints@.len(),
            out@.len() == i,
            forall|k: int|
                0 <= k < i ==> (#[trigger] out@[k])@ == stripped_view(datapoints@[k]@),
        decreases datapoints@.len() - i,
    {
        let d = datapoints[i].clone();
        out.push(d.get_non_numeric_stripped());
        i = i + 1;
    }
    proof {
        assert(dpviews(out@) =~= strip_all(dpviews(datapoints@)));
    }
    out
}

/// The entries that do not carry the given tag.
pub fn remove_where_tag(datapoints: Vec<Datapoint>, tag: String) -> (r: Vec<Datapoint>)
    ensures
        dpviews(r@) == without_tag(dpviews(datapoints@), tag@),
{
    let ghost all = dpviews(datapoints@);
    let mut out: Vec<Datapoint> = Vec::new();
    let mut i: usize = 0;
    while i < datapoints.len()
        invariant
            i <= datapoints@.len(),
            all == dpviews(datapoints@),
            dpviews(out@) =~= without_tag(all.take(i as int), tag@),
        decreases datapoints@.len() - i,
    {
        proof {
            assert(all.take(i + 1).drop_last() =~= all.take(i as int));
            assert(all.take(i + 1).last() == all[i as int]);
            reveal_with_fuel(Seq::filter, 2);
        }
        let d = &datapoints[i];
        if !crate::parsedquery::tag_list_contains(d.get_tags(), &tag) {
            out.push(d.clone());
        }
        i = i + 1;
        proof {
            assert(dpviews(out@) =~= without_tag(all.take(i as int), tag@));
        }
    }
    proof {
        assert(all.take(all.len() as int) =~= all);
    }
    out
}

/// The date filter over a list of entries.
pub fn from_date(datapoints: Vec<Datapoint>, date: String, return_before: bool) -> (r: Vec<
    Datapoint,
>)
    ensures
        dpviews(r@) == from_date_spec(dpviews(datapoints@), date@, return_before),
{
    let parsed = match parse_ymd(date.as_str()) {
        Some(d) => d,
        None => {
            return datapoints;
        },
    };
    let cutoff = if return_before {
        DateTime { date: parsed, time: Time { hour: 0, minute: 0, second: 0, nano: 0 } }
    } else {
        DateTime { date: parsed, time: Time { hour: 23, minute: 59, second: 59, nano: 0 } }
    };
    let ghost all = dpviews(datapoints@);
    let mut location: usize = 0;
    while location < datapoints.len() && datetime_lt(datapoints[location].get_datetime(), &cutoff)
        invariant
            location <= datapoints@.len(),
            all == dpviews(datapoints@),
            forall|l: int| 0 <= l < location ==> before((#[trigger] all[l]).datetime, cutoff),
        decreases datapoints@.len() - location,
    {
        location = location + 1;
    }
    proof {
        lemma_lead_below(all, cutoff, location as int);
    }
    let mut out: Vec<Datapoint> = Vec::new();
    if return_before {
        let mut j: usize = location;
        while j < datapoints.len()
            invariant
                location <= j <= datapoints@.len(),
                all == dpviews(datapoints@),
                out@.len() == j - location,
                forall|k: int|
                    0 <= k < j - location ==> (#[trigger] out@[k])@ == all[k + location],
            decreases datapoints@.len() - j,
        {
            out.push(datapoints[j].clone());
            j = j + 1;
        }
        proof {
            assert(dpviews(out@) =~= all.skip(location as int));
        }
    } else {
        let mut j: usize = 0;
        while j < location
            invariant
                j <= location <= datapoints@.len(),
                all == dpviews(datapoints@),
                out@.len() == j,
                forall|k: int| 0 <= k < j ==> (#[trigger] out@[k])@ == all[k],
            decreases location - j,
        {
            out.push(datapoints[j].clone());
            j = j + 1;
        }
        proof {
            assert(dpviews(out@) =~= all.take(location as int));
        }
    }
    out
}

/// The date sub-command: dispatches on the lowercased sub-selector.
pub fn select_for_date(datapoints: Vec<Datapoint>, command: Vec<String>) -> (r: Vec<Datapoint>)
    ensures
        dpviews(r@) == select_date_spec(dpviews(datapoints@), str_views(command@)),
{
    if command.len() < 4 {
        return datapoints;
    }
    proof {
        assert(str_views(command@)[2] == command@[2]@);
        assert(str_views(command@)[3] == command@[3]@);
    }
    let sub = to_lowercase(command[2].as_str());
    if str_eq(sub.as_str(), "start") || str_eq(sub.as_str(), "from") {
        from_date(datapoints, command[3].clone(), true)
    } else if str_eq(sub.as_str(), "till") || str_eq(sub.as_str(), "until") || str_eq(
        sub.as_str(),
        "end",
    ) {
        from_date(datapoints, command[3].clone(), false)
    } else {
        datapoints
    }
}

/// One pipeline command, dispatched on the lowercased modifier name.
pub fn apply_command(datapoints: Vec<Datapoint>, command: Vec<String>) -> (r: Vec<Datapoint>)
    requires
        command@.len() >= 2,
    ensures
        dpviews(r@) == apply_command_spec(dpviews(datapoints@), str_views(command@)),
{
    proof {
        assert(str_views(command@)[0] == command@[0]@);
        assert(str_views(command@)[1] == command@[1]@);
    }
    let m = to_lowercase(command[1].as_str());
    if str_eq(m.as_str(), "date") {
        select_for_date(datapoints, command)
    } else if str_eq(m.as_str(), "value") {
        strip_non_numeric(datapoints)
    } else if str_eq(m.as_str(), "exclude") {
        remove_where_tag(datapoints, command[0].clone())
    } else {
        datapoints
    }
}

/// What a query result holds: the surviving entries, bound to the query
/// that produced them.
pub struct QueryResultView {
    pub entries: Seq<DatapointView>,
    pub query: Seq<Seq<Seq<char>>>,
}

/// An entry list bound to the parsed query that produced it.
pub struct QueryResult {
    datapoints: Vec<Datapoint>,
    query: ParsedQuery,
}

impl View for QueryResult {
    type V = QueryResultView;

    closed spec fn view(&self) -> QueryResultView {
        QueryResultView { entries: dpviews(self.datapoints@), query: self.query@ }
    }
}

impl QueryResult {
    /// Every term of the bound query holds at least its tag part.
    pub open spec fn wf(self) -> bool {
        forall|i: int| 0 <= i < self@.query.len() ==> (#[trigger] self@.query[i]).len() >= 1
    }

    /// Binds entries to the query that selected them.
    pub fn from(datapoints: Vec<Datapoint>, query: ParsedQuery) -> (r: QueryResult)
        ensures
            r@.entries == dpviews(datapoints@),
            r@.query == query@,
            query.wf() ==> r.wf(),
    {
        QueryResult { datapoints, query }
    }

    /// Runs every modifier-carrying term of the query over the entries, in
    /// query order.
    pub fn apply_query_commands(self) -> (r: QueryResult)
        requires
            self.wf(),
        ensures
            r@.query == self@.query,
            r@.entries == apply_commands(self@.entries, self@.query),
            r.wf(),
    {
        let ghost terms = self@.query;
        let ghost entries0 = self@.entries;
        let raw = self.query.get_raw_parsed();
        let mut transformed = self.datapoints;
        let mut i: usize = 0;
        while i < raw.len()
            invariant
                i <= raw@.len(),
                term_views(raw@) == terms,
                dpviews(transformed@) =~= apply_commands(entries0, terms.take(i as int)),
            decreases raw@.len() - i,
        {
            proof {
                assert(terms.take(i + 1).drop_last() =~= terms.take(i as int));
                assert(terms.take(i + 1).last() == terms[i as int]);
                assert(terms[i as int] == str_views(raw@[i as int]@));
            }
            if raw[i].len() > 1 {
                let cmd = clone_strings(&raw[i]);
                transformed = apply_command(transformed, cmd);
            }
            i = i + 1;
        }
        proof {
            assert(terms.take(terms.len() as int) =~= terms);
        }
        QueryResult { datapoints: transformed, query: self.query }
    }

    /// The surviving entries, copied out.
    pub fn get_datapoints(&self) -> (r: Vec<Datapoint>)
        ensures
            dpviews(r@) == self@.entries,
    {
        clone_datapoints(&self.datapoints)
    }

    /// The query that produced this result.
    pub fn get_query(&self) -> (r: ParsedQuery)
        ensures
            r@ == self@.query,
    {
        self.query.clone()
    }

    /// The numeric payload text of every entry whose stripped payload reads
    /// as one decimal number.
    pub fn get_numeric_texts(&self) -> (r: Vec<String>)
        ensures
            str_views(r@) == self@.entries.map_values(
                |d: DatapointView| numeric_part(d.data),
            ).filter(|s: Seq<char>| numeric_text(s)),
    {
        let ghost candidates = self@.entries.map_values(|d: DatapointView| numeric_part(d.data));
        let mut out: Vec<String> = Vec::new();
        let mut i: usize = 0;
        while i < self.datapoints.len()
            invariant
                i <= self.datapoints@.len(),
                candidates == self@.entries.map_values(|d: DatapointView| numeric_part(d.data)),
                self@.entries.len() == self.datapoints@.len(),
                str_views(out@) =~= candidates.take(i as int).filter(
                    |s: Seq<char>| numeric_text(s),
                ),
            decreases self.datapoints@.len() - i,
        {
            proof {
                assert(candidates.take(i + 1).drop_last() =~= candidates.take(i as int));
                assert(candidates.take(i + 1).last() == candidates[i as int]);
                assert(self@.entries[i as int] == self.datapoints@[i as int]@);
                reveal_with_fuel(Seq::filter, 2);
            }
            let stripped = vec_numeric_part(&chars_of(self.datapoints[i].get_data().as_str()));
            let text = string_of(&stripped);
            if crate::text::is_numeric_text(text.as_str()) {
                out.push(text);
            }
            i = i + 1;
            proof {
                assert(str_views(out@) =~= candidates.take(i as int).filter(
                    |s: Seq<char>| numeric_text(s),
                ));
            }
        }
        proof {
            assert(candidates.take(candidates.len() as int) =~= candidates);
        }
        out
    }

    /// For every entry its moment and numeric payload text, or nothing when
    /// the result is empty or some entry does not read as a number.
    pub fn get_date_numeric_texts(&self) -> (r: Option<Vec<(DateTime, String)>>)
        ensures
            r is Some <==> self@.entries.len() > 0 && (forall|i: int|
                0 <= i < self@.entries.len() ==> numeric_text(
                    numeric_part((#[trigger] self@.entries[i]).data),
                )),
            r matches Some(v) ==> {
                &&& v@.len() == self@.entries.len()
                &&& forall|i: int|
                    0 <= i < v@.len() ==> (#[trigger] v@[i]).0 == self@.entries[i].datetime
                        && v@[i].1@ == numeric_part(self@.entries[i].data)
            },
    {
        if self.datapoints.len() == 0 {
            return None;
        }
        let mut out: Vec<(DateTime, String)> = Vec::new();
        let mut i: usize = 0;
        while i < self.datapoints.len()
            invariant
                i <= self.datapoints@.len(),
                self@.entries.len() == self.datapoints@.len(),
                out@.len() == i,
                forall|k: int|
                    0 <= k < i ==> (#[trigger] out@[k]).0 == self@.entries[k].datetime
                        && out@[k].1@ == numeric_part(self@.entries[k].data),
                forall|k: int|
                    0 <= k < i ==> numeric_text(numeric_part((#[trigger] self@.entries[k]).data)),
            decreases self.datapoints@.len() - i,
        {
            proof {
                assert(self@.entries[i as int] == self.datapoints@[i as int]@);
            }
            let d = &self.datapoints[i];
            let stripped = vec_numeric_part(&chars_of(d.get_data().as_str()));
            let text = string_of(&stripped);
            if !crate::text::is_numeric_text(text.as_str()) {
                return None;
            }
            let moment = *d.get_datetime();
            out.push((moment, text));
            i = i + 1;
        }
        Some(out)
    }
}

} // verus!
