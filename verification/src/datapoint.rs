//! Entries and the entry parser. An entry holds a calendar time, a payload
//! text, a tag list and an identity key; the parser reads `payload (+tag)*`
//! texts, where `D:`/`DATE:` and `T:`/`TIME:` tags override the creation
//! date and time.
use vstd::prelude::*;

use crate::clock::{hms_parse, now_local, parse_hms, parse_ymd, ymd_parse};
use crate::datetime::{Date, DateTime, Time};
use crate::text::{
    chars_of, char_is_space, is_space, numeric_part, split_char, str_views, string_of, str_eq,
    trim, vec_numeric_part, vec_split_char, vec_trim, vec_ws_tokens, views, ws_tokens,
    lemma_split_char_len, clone_strings,
};

verus! {

/// What an entry holds, as mathematical values.
pub struct DatapointView {
    pub datetime: DateTime,
    pub data: Seq<char>,
    pub tags: Seq<Seq<char>>,
    pub key: u64,
}

/// One tracked observation: a calendar time, a payload text, its tags and
/// an identity key (0 until a store assigns one).
#[derive(Debug, PartialEq)]
pub struct Datapoint {
    datetime: DateTime,
    data: String,
    tags: Vec<String>,
    key: u64,
}

impl View for Datapoint {
    type V = DatapointView;

    closed spec fn view(&self) -> DatapointView {
        DatapointView {
            datetime: self.datetime,
            data: self.data@,
            tags: str_views(self.tags@),
            key: self.key,
        }
    }
}

impl Clone for Datapoint {
    fn clone(&self) -> (r: Self)
        ensures
            r@ == self@,
    {
        let r = Datapoint {
            datetime: self.datetime,
            data: self.data.clone(),
            tags: clone_strings(&self.tags),
            key: self.key,
        };
        r
    }
}

/// The views of a sequence of entries.
pub open spec fn dpviews(s: Seq<Datapoint>) -> Seq<DatapointView> {
    s.map_values(|d: Datapoint| d@)
}

/// A copy of a vector of entries, equal view by view.
pub fn clone_datapoints(v: &Vec<Datapoint>) -> (r: Vec<Datapoint>)
    ensures
        dpviews(r@) == dpviews(v@),
{
    let mut out: Vec<Datapoint> = Vec::new();
    let mut i: usize = 0;
    while i < v.len()
        invariant
            i <= v@.len(),
            out@.len() == i,
            forall|k: int| 0 <= k < i ==> out@[k]@ == v@[k]@,
        decreases v@.len() - i,
    {
        out.push(v[i].clone());
        i = i + 1;
    }
    proof {
        assert(dpviews(out@) =~= dpviews(v@));
    }
    out
}

impl Datapoint {
    /// An entry with exactly the given parts.
    pub fn new(datetime: DateTime, data: String, tags: Vec<String>, key: u64) -> (r: Datapoint)
        ensures
            r@ == (DatapointView { datetime, data: data@, tags: str_views(tags@), key }),
    {
        Datapoint { datetime, data, tags, key }
    }

    /// Whether the payload texts agree.
    pub fn data_same_as(&self, other: &Datapoint) -> (r: bool)
        ensures
            r == (self@.data == other@.data),
    {
        str_eq(self.data.as_str(), other.data.as_str())
    }

    /// Whether the tag lists agree, element by element.
    pub fn tags_same_as(&self, other: &Datapoint) -> (r: bool)
        ensures
            r == (self@.tags == other@.tags),
    {
        if self.tags.len() != other.tags.len() {
            proof {
                assert(self@.tags.len() != other@.tags.len());
            }
            return false;
        }
        let mut i: usize = 0;
        while i < self.tags.len()
            invariant
                i <= self.tags@.len(),
                self.tags@.len() == other.tags@.len(),
                forall|k: int| 0 <= k < i ==> self@.tags[k] == other@.tags[k],
            decreases self.tags@.len() - i,
        {
            if !str_eq(self.tags[i].as_str(), other.tags[i].as_str()) {
                proof {
                    assert(self@.tags[i as int] != other@.tags[i as int]);
                }
                return false;
            }
            i = i + 1;
        }
        proof {
            assert(self@.tags =~= other@.tags);
        }
        true
    }

    pub fn get_data(&self) -> (r: &String)
        ensures
            r@ == self@.data,
    {
        &self.data
    }

    pub fn get_datetime(&self) -> (r: &DateTime)
        ensures
            *r == self@.datetime,
    {
        &self.datetime
    }

    pub fn get_tags(&self) -> (r: &Vec<String>)
        ensures
            str_views(r@) == self@.tags,
    {
        &self.tags
    }

    /// The same entry with the payload reduced to its digits and dots.
    pub fn get_non_numeric_stripped(self) -> (r: Datapoint)
        ensures
            r@ == (DatapointView { data: numeric_part(self@.data), ..self@ }),
    {
        let stripped = vec_numeric_part(&chars_of(self.data.as_str()));
        Datapoint {
            datetime: self.datetime,
            data: string_of(&stripped),
            tags: self.tags,
            key: self.key,
        }
    }

    pub fn set_key(&mut self, key: u64)
        ensures
            final(self)@ == (DatapointView { key, ..old(self)@ }),
    {
        self.key = key;
    }

    pub fn get_key(&self) -> (r: u64)
        ensures
            r == self@.key,
    {
        self.key
    }

    /// Appends one tag at the end of the tag list.
    pub fn add_tag(&mut self, tag: &String)
        ensures
            final(self)@ == (DatapointView {
                tags: old(self)@.tags.push(tag@),
                ..old(self)@
            }),
    {
        self.tags.push(tag.clone());
        proof {
            assert(str_views(self.tags@) =~= str_views(old(self).tags@).push(tag@));
        }
    }

    /// Removes every occurrence of the given tag.
    pub fn remove_tag(&mut self, tag: &String)
        ensures
            final(self)@ == (DatapointView {
                tags: old(self)@.tags.filter(|t: Seq<char>| t != tag@),
                ..old(self)@
            }),
    {
        let ghost orig: Seq<Seq<char>> = str_views(old(self).tags@);
        let mut i: usize = 0;
        let ghost mut j: int = 0;
        while i < self.tags.len()
            invariant
                0 <= j <= orig.len(),
                i == orig.take(j).filter(|t: Seq<char>| t != tag@).len(),
                i <= self.tags@.len(),
                str_views(self.tags@) =~= orig.take(j).filter(|t: Seq<char>| t != tag@)
                    + orig.skip(j),
                self.datetime == old(self).datetime,
                self.data == old(self).data,
                self.key == old(self).key,
            decreases orig.len() - j,
        {
            let ghost kept = orig.take(j).filter(|t: Seq<char>| t != tag@);
            proof {
                assert(j < orig.len()) by {
                    assert(str_views(self.tags@).len() == kept.len() + orig.len() - j);
                }
                assert(orig.take(j + 1).drop_last() =~= orig.take(j));
                assert(orig.take(j + 1).last() == orig[j]);
                reveal_with_fuel(Seq::filter, 2);
                assert(str_views(self.tags@)[i as int] == orig[j]);
            }
            if str_eq(self.tags[i].as_str(), tag.as_str()) {
                self.tags.remove(i);
                proof {
                    assert(orig[j] == tag@);
                    assert(orig.take(j + 1).filter(|t: Seq<char>| t != tag@) =~= kept);
                    assert(str_views(self.tags@) =~= orig.take(j + 1).filter(
                        |t: Seq<char>| t != tag@,
                    ) + orig.skip(j + 1)) by {
                        assert(str_views(self.tags@) =~= (kept + orig.skip(j)).remove(i as int));
                        assert(orig.skip(j).skip(1) =~= orig.skip(j + 1));
                    }
                }
            } else {
                proof {
                    assert(orig[j] != tag@);
                    assert(orig.take(j + 1).filter(|t: Seq<char>| t != tag@) =~= kept.push(
                        orig[j],
                    ));
                    assert(str_views(self.tags@) =~= orig.take(j + 1).filter(
                        |t: Seq<char>| t != tag@,
                    ) + orig.skip(j + 1)) by {
                        assert(orig.skip(j).skip(1) =~= orig.skip(j + 1));
                        assert(orig.skip(j)[0] == orig[j]);
                    }
                }
                i = i + 1;
            }
            proof {
                j = j + 1;
            }
        }
        proof {
            assert(j == orig.len()) by {
                assert(str_views(self.tags@).len() == i + orig.len() - j);
            }
            assert(orig.take(orig.len() as int) =~= orig);
            assert(orig.skip(orig.len() as int) =~= Seq::<Seq<char>>::empty());
            assert(str_views(self.tags@) =~= orig.filter(|t: Seq<char>| t != tag@));
        }
    }
}

// ---------------------------------------------------------------------------
// The entry parser.
// ---------------------------------------------------------------------------
/// The payload of an entry text: everything before the first plus sign,
/// trimmed of surrounding whitespace.
pub open spec fn data_text(t: Seq<char>) -> Seq<char> {
    trim(split_char(t, '+')[0])
}

/// The plus-separated segments after the payload.
pub open spec fn tag_segments(t: Seq<char>) -> Seq<Seq<char>> {
    split_char(t, '+').skip(1)
}

/// Whether a segment yields a tag: it must not begin with whitespace and
/// must hold at least one word.
pub open spec fn tag_kept(seg: Seq<char>) -> bool {
    &&& !(seg.len() > 0 && is_space(seg[0]))
    &&& ws_tokens(seg).len() > 0
}

/// The tags read off the segments: the first word of every kept segment.
pub open spec fn raw_tags(segs: Seq<Seq<char>>) -> Seq<Seq<char>>
    decreases segs.len(),
{
    if segs.len() == 0 {
        Seq::<Seq<char>>::empty()
    } else {
        let pre = raw_tags(segs.drop_last());
        if tag_kept(segs.last()) {
            pre.push(ws_tokens(segs.last())[0])
        } else {
            pre
        }
    }
}

/// The payload part of an entry text.
pub fn get_data_from(text: &str) -> (r: String)
    ensures
        r@ == data_text(text@),
{
    let v = chars_of(text);
    let parts = vec_split_char(&v, '+');
    proof {
        lemma_split_char_len(v@, '+');
        assert(views(parts@)[0] == parts@[0]@);
    }
    let trimmed = vec_trim(&parts[0]);
    string_of(&trimmed)
}

/// Reads the tags out of the plus-separated segments.
pub fn collect_tags(segments: Vec<Vec<char>>) -> (r: Vec<String>)
    ensures
        str_views(r@) == raw_tags(views(segments@)),
{
    let mut out: Vec<String> = Vec::new();
    let mut i: usize = 0;
    while i < segments.len()
        invariant
            i <= segments@.len(),
            str_views(out@) =~= raw_tags(views(segments@.take(i as int))),
        decreases segments@.len() - i,
    {
        proof {
            assert(views(segments@.take(i + 1)).drop_last() =~= views(segments@.take(i as int)));
            assert(views(segments@.take(i + 1)).last() == segments@[i as int]@);
        }
        let seg = &segments[i];
        if seg.len() > 0 && char_is_space(seg[0]) {
            proof {
                assert(!tag_kept(segments@[i as int]@));
            }
        } else {
            let tokens = vec_ws_tokens(seg);
            if tokens.len() > 0 {
                proof {
                    assert(tag_kept(segments@[i as int]@));
                    assert(views(tokens@)[0] == tokens@[0]@);
                }
                out.push(string_of(&tokens[0]));
                proof {
                    assert(str_views(out@) =~= raw_tags(views(segments@.take(i + 1))));
                }
            } else {
                proof {
                    assert(!tag_kept(segments@[i as int]@));
                }
            }
        }
        i = i + 1;
    }
    proof {
        assert(segments@.take(segments@.len() as int) =~= segments@);
    }
    out
}

/// The tags of an entry text.
pub fn get_tags_from(text: &str) -> (r: Vec<String>)
    ensures
        str_views(r@) == raw_tags(tag_segments(text@)),
{
    let v = chars_of(text);
    let parts = vec_split_char(&v, '+');
    let mut rest: Vec<Vec<char>> = Vec::new();
    let mut i: usize = 1;
    proof {
        lemma_split_char_len(v@, '+');
    }
    while i < parts.len()
        invariant
            parts@.len() >= 1,
            1 <= i <= parts@.len(),
            rest@.len() == i - 1,
            forall|k: int| 0 <= k < i - 1 ==> rest@[k]@ == parts@[k + 1]@,
        decreases parts@.len() - i,
    {
        let c = parts[i].clone();
        proof {
            assert(c@ =~= parts@[i as int]@);
        }
        rest.push(c);
        i = i + 1;
    }
    proof {
        assert(views(rest@) =~= views(parts@).skip(1));
    }
    collect_tags(rest)
}

// ---------------------------------------------------------------------------
// Date and time tag handling.
// ---------------------------------------------------------------------------
/// The date a `D:`/`DATE:` command denotes, or the fallback.
pub open spec fn parse_date_spec(parts: Seq<Seq<char>>, fallback: Date) -> Date {
    if parts.len() < 2 {
        fallback
    } else {
        match ymd_parse(parts[1]) {
            Some(d) => d,
            None => fallback,
        }
    }
}

/// The time a `T:`/`TIME:` command denotes, or the fallback.
pub open spec fn parse_time_spec(parts: Seq<Seq<char>>, fallback: Time) -> Time {
    if parts.len() < 2 {
        fallback
    } else {
        match hms_parse(parts[1]) {
            Some(t) => t,
            None => fallback,
        }
    }
}

pub open spec fn is_date_cmd(word: Seq<char>) -> bool {
    word == "D"@ || word == "DATE"@
}

pub open spec fn is_time_cmd(word: Seq<char>) -> bool {
    word == "T"@ || word == "TIME"@
}

/// The date left after walking the tags in order, starting from `d0`.
pub open spec fn fold_date(tags: Seq<Seq<char>>, d0: Date) -> Date
    decreases tags.len(),
{
    if tags.len() == 0 {
        d0
    } else {
        let prev = fold_date(tags.drop_last(), d0);
        let parts = split_char(tags.last(), ':');
        if is_date_cmd(parts[0]) {
            parse_date_spec(parts, prev)
        } else {
            prev
        }
    }
}

/// The time left after walking the tags in order, starting from `t0`.
pub open spec fn fold_time(tags: Seq<Seq<char>>, t0: Time) -> Time
    decreases tags.len(),
{
    if tags.len() == 0 {
        t0
    } else {
        let prev = fold_time(tags.drop_last(), t0);
        let parts = split_char(tags.last(), ':');
        if is_time_cmd(parts[0]) {
            parse_time_spec(parts, prev)
        } else {
            prev
        }
    }
}

/// The tags that stay on the entry: the part before the colon of every tag
/// that is not a date or time command.
pub open spec fn kept_tags(tags: Seq<Seq<char>>) -> Seq<Seq<char>>
    decreases tags.len(),
{
    if tags.len() == 0 {
        Seq::<Seq<char>>::empty()
    } else {
        let pre = kept_tags(tags.drop_last());
        let parts = split_char(tags.last(), ':');
        if is_date_cmd(parts[0]) || is_time_cmd(parts[0]) {
            pre
        } else {
            pre.push(parts[0])
        }
    }
}

/// Reads the date out of a split command, falling back on parse failure.
pub fn parse_date(command: &Vec<String>, fallback: Date) -> (r: Date)
    ensures
        r == parse_date_spec(str_views(command@), fallback),
        r.valid() || r == fallback,
{
    if command.len() < 2 {
        return fallback;
    }
    match parse_ymd(command[1].as_str()) {
        Some(d) => d,
        None => fallback,
    }
}

/// Reads the time out of a split command, falling back on parse failure.
pub fn parse_time(command: &Vec<String>, fallback: Time) -> (r: Time)
    ensures
        r == parse_time_spec(str_views(command@), fallback),
        r.valid() || r == fallback,
{
    if command.len() < 2 {
        return fallback;
    }
    match parse_hms(command[1].as_str()) {
        Some(t) => t,
        None => fallback,
    }
}

/// Builds the entry deterministically from the payload, the tag list and
/// the moment taken as the creation time.
pub fn build_datapoint(data: String, tags: Vec<String>, now: DateTime) -> (dp: Datapoint)
    ensures
        dp@.data == data@,
        dp@.tags == kept_tags(str_views(tags@)),
        dp@.datetime.date == fold_date(str_views(tags@), now.date),
        dp@.datetime.time == fold_time(str_views(tags@), now.time),
        dp@.key == 0,
{
    let ghost all: Seq<Seq<char>> = str_views(tags@);
    let mut date: Date = now.date;
    let mut time: Time = now.time;
    let mut kept: Vec<String> = Vec::new();
    let mut i: usize = 0;
    while i < tags.len()
        invariant
            i <= tags@.len(),
            all == str_views(tags@),
            date == fold_date(all.take(i as int), now.date),
            time == fold_time(all.take(i as int), now.time),
            str_views(kept@) =~= kept_tags(all.take(i as int)),
        decreases tags@.len() - i,
    {
        proof {
            reveal_strlit("D");
            reveal_strlit("DATE");
            reveal_strlit("T");
            reveal_strlit("TIME");
            assert(all.take(i + 1).drop_last() =~= all.take(i as int));
            assert(all.take(i + 1).last() == all[i as int]);
        }
        let chars = chars_of(tags[i].as_str());
        let parts = vec_split_char(&chars, ':');
        proof {
            lemma_split_char_len(chars@, ':');
            assert(views(parts@)[0] == parts@[0]@);
        }
        let head = string_of(&parts[0]);
        let is_d = str_eq(head.as_str(), "D") || str_eq(head.as_str(), "DATE");
        let is_t = str_eq(head.as_str(), "T") || str_eq(head.as_str(), "TIME");
        if is_d || is_t {
            let mut command: Vec<String> = Vec::new();
            let mut j: usize = 0;
            while j < parts.len()
                invariant
                    j <= parts@.len(),
                    command@.len() == j,
                    forall|k: int| 0 <= k < j ==> command@[k]@ == parts@[k]@,
                decreases parts@.len() - j,
            {
                command.push(string_of(&parts[j]));
                j = j + 1;
            }
            proof {
                assert(str_views(command@) =~= views(parts@));
                reveal_strlit("D");
                reveal_strlit("DATE");
                reveal_strlit("T");
                reveal_strlit("TIME");
                assert("D"@.len() == 1 && "T"@.len() == 1 && "DATE"@.len() == 4 && "TIME"@.len()
                    == 4);
                assert("D"@[0] == 'D' && "T"@[0] == 'T' && "DATE"@[0] == 'D' && "TIME"@[0] == 'T');
                assert("D"@ != "T"@ && "D"@ != "TIME"@ && "DATE"@ != "T"@ && "DATE"@ != "TIME"@);
                assert(is_d ==> head@ == "D"@ || head@ == "DATE"@);
                assert(is_t ==> head@ == "T"@ || head@ == "TIME"@);
                assert(!(is_d && is_t));
                assert(views(parts@) == split_char(all[i as int], ':'));
            }
            if is_d {
                date = parse_date(&command, date);
            } else {
                time = parse_time(&command, time);
            }
        } else {
            kept.push(head);
            proof {
                assert(str_views(kept@) =~= kept_tags(all.take(i + 1)));
            }
        }
        i = i + 1;
    }
    proof {
        assert(all.take(all.len() as int) =~= all);
    }
    Datapoint { datetime: DateTime { date, time }, data, tags: kept, key: 0 }
}

/// Builds the entry from already-separated parts, taking the creation time
/// from the clock.
pub fn handle_tags_and_create_datapoint(data: String, tags: Vec<String>) -> (dp: Datapoint)
    ensures
        dp@.data == data@,
        dp@.tags == kept_tags(str_views(tags@)),
        dp@.key == 0,
        exists|now: DateTime|
            now.valid() && dp@.datetime.date == fold_date(str_views(tags@), now.date)
                && dp@.datetime.time == fold_time(str_views(tags@), now.time),
    {
    let now = now_local();
    let dp = build_datapoint(data, tags, now);
    proof {
        assert(now.valid() && dp@.datetime.date == fold_date(str_views(tags@), now.date)
            && dp@.datetime.time == fold_time(str_views(tags@), now.time));
    }
    dp
}

/// Parses an entry text at a given moment: payload before the first plus,
/// tags after it, date and time commands applied in order.
pub fn create_datapoint_at(text: &str, now: DateTime) -> (dp: Datapoint)
    ensures
        dp@.data == data_text(text@),
        dp@.tags == kept_tags(raw_tags(tag_segments(text@))),
        dp@.datetime.date == fold_date(raw_tags(tag_segments(text@)), now.date),
        dp@.datetime.time == fold_time(raw_tags(tag_segments(text@)), now.time),
        dp@.key == 0,
{
    let tags = get_tags_from(text);
    let data = get_data_from(text);
    build_datapoint(data, tags, now)
}

/// Parses an entry text, taking the creation time from the clock.
pub fn create_datapoint(text: &str) -> (dp: Datapoint)
    ensures
        dp@.data == data_text(text@),
        dp@.tags == kept_tags(raw_tags(tag_segments(text@))),
        dp@.key == 0,
        exists|now: DateTime|
            now.valid() && dp@.datetime.date == fold_date(
                raw_tags(tag_segments(text@)),
                now.date,
            ) && dp@.datetime.time == fold_time(raw_tags(tag_segments(text@)), now.time),
{
    let tags = get_tags_from(text);
    let data = get_data_from(text);
    handle_tags_and_create_datapoint(data, tags)
}

} // verus!
