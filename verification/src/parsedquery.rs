//! The query language: a raw query is tokenized on plus signs and
//! whitespace, and each token splits on colons into a tag followed by an
//! optional modifier chain.
use vstd::prelude::*;

use crate::text::{
    chars_of, clone_strings, is_space, join_with, lemma_split_char_len, plus_to_space, split_char,
    str_eq, str_views, string_of, trim, vec_plus_to_space, vec_split_char, vec_trim,
    vec_ws_tokens, views, ws_tokens,
};

verus! {

/// The terms a query text denotes: each whitespace- or plus-separated token,
/// split on colons.
pub open spec fn parse_spec(q: Seq<char>) -> Seq<Seq<Seq<char>>> {
    ws_tokens(trim(q).map_values(|c: char| plus_to_space(c))).map_values(
        |t: Seq<char>| split_char(t, ':'),
    )
}

/// Whether a term carries the `exclude` modifier.
pub open spec fn excluded_term(t: Seq<Seq<char>>) -> bool {
    t.len() > 1 && t[1] == "exclude"@
}

/// Whether tags satisfy every term that is not excluded: each such term's
/// tag must be present.
pub open spec fn matches_all(terms: Seq<Seq<Seq<char>>>, tags: Seq<Seq<char>>) -> bool {
    forall|i: int|
        0 <= i < terms.len() && !excluded_term(terms[i]) ==> tags.contains(#[trigger] terms[i][0])
}

/// Whether a parsed query matches everything: no terms, or a sole empty tag.
pub open spec fn query_empty(terms: Seq<Seq<Seq<char>>>) -> bool {
    terms.len() < 1 || terms[0][0] == Seq::<char>::empty()
}

/// The display text of one term: its tag, prefixed with "without " when the
/// term is excluded.
pub open spec fn title_part(t: Seq<Seq<char>>) -> Seq<char> {
    if excluded_term(t) {
        "without "@ + t[0]
    } else {
        t[0]
    }
}

/// The display text of a whole query: the term texts joined with ", ".
pub open spec fn query_title(terms: Seq<Seq<Seq<char>>>) -> Seq<char> {
    join_with(terms.map_values(|t: Seq<Seq<char>>| title_part(t)), ", "@)
}

/// A structured query: ordered terms, each a tag with an optional modifier
/// chain.
pub struct ParsedQuery {
    query: Vec<Vec<String>>,
}

/// The views of a term list.
pub open spec fn term_views(ts: Seq<Vec<String>>) -> Seq<Seq<Seq<char>>> {
    ts.map_values(|t: Vec<String>| str_views(t@))
}

impl View for ParsedQuery {
    type V = Seq<Seq<Seq<char>>>;

    closed spec fn view(&self) -> Seq<Seq<Seq<char>>> {
        term_views(self.query@)
    }
}

/// A copy of a term list, equal view by view.
fn clone_terms(v: &Vec<Vec<String>>) -> (r: Vec<Vec<String>>)
    ensures
        term_views(r@) == term_views(v@),
{
    let mut out: Vec<Vec<String>> = Vec::new();
    let mut i: usize = 0;
    while i < v.len()
        invariant
            i <= v@.len(),
            out@.len() == i,
            forall|k: int| 0 <= k < i ==> str_views(out@[k]@) == str_views(v@[k]@),
        decreases v@.len() - i,
    {
        let c = clone_strings(&v[i]);
        out.push(c);
        i = i + 1;
    }
    proof {
        assert(term_views(out@) =~= term_views(v@));
    }
    out
}

impl Clone for ParsedQuery {
    fn clone(&self) -> (r: Self)
        ensures
            r@ == self@,
    {
        ParsedQuery { query: clone_terms(&self.query) }
    }
}

impl ParsedQuery {
    /// Every term holds at least its tag part.
    pub open spec fn wf(self) -> bool {
        forall|i: int| 0 <= i < self@.len() ==> (#[trigger] self@[i]).len() >= 1
    }

    /// Parses a raw query text: trim, read plus signs as blanks, tokenize
    /// on whitespace, split each token on colons.
    pub fn parse(query: &str) -> (r: ParsedQuery)
        ensures
            r@ == parse_spec(query@),
            r.wf(),
    {
        let v = chars_of(query);
        let trimmed = vec_trim(&v);
        let replaced = vec_plus_to_space(&trimmed);
        let tokens = vec_ws_tokens(&replaced);
        let mut terms: Vec<Vec<String>> = Vec::new();
        let mut i: usize = 0;
        while i < tokens.len()
            invariant
                i <= tokens@.len(),
                terms@.len() == i,
                forall|k: int|
                    0 <= k < i ==> str_views(#[trigger] terms@[k]@) == split_char(
                        views(tokens@)[k],
                        ':',
                    ),
            decreases tokens@.len() - i,
        {
            let parts = vec_split_char(&tokens[i], ':');
            let mut term: Vec<String> = Vec::new();
            let mut j: usize = 0;
            while j < parts.len()
                invariant
                    j <= parts@.len(),
                    term@.len() == j,
                    forall|k: int| 0 <= k < j ==> #[trigger] term@[k]@ == parts@[k]@,
                decreases parts@.len() - j,
            {
                term.push(string_of(&parts[j]));
                j = j + 1;
            }
            proof {
                assert(str_views(term@) =~= views(parts@));
                assert(views(tokens@)[i as int] == tokens@[i as int]@);
            }
            terms.push(term);
            i = i + 1;
        }
        proof {
            assert(term_views(terms@) =~= parse_spec(query@));
            assert forall|k: int| 0 <= k < term_views(terms@).len() implies (#[trigger] term_views(
                terms@,
            )[k]).len() >= 1 by {
                lemma_split_char_len(views(tokens@)[k], ':');
            }
        }
        ParsedQuery { query: terms }
    }

    /// The display title of the query, under a fixed prefix.
    pub fn generate_plot_title(&self) -> (r: String)
        requires
            self.wf(),
        ensures
            r@ == "Plot for: "@ + query_title(self@),
    {
        let mut out = String::new();
        out.append("Plot for: ");
        let rest = self.collect_query();
        out.append(rest.as_str());
        out
    }

    /// The term texts joined with ", "; an excluded term reads "without X".
    pub fn collect_query(&self) -> (r: String)
        requires
            self.wf(),
        ensures
            r@ == query_title(self@),
    {
        let mut parts: Vec<String> = Vec::new();
        let mut i: usize = 0;
        while i < self.query.len()
            invariant
                i <= self.query@.len(),
                self.wf(),
                parts@.len() == i,
                forall|k: int| 0 <= k < i ==> #[trigger] parts@[k]@ == title_part(self@[k]),
            decreases self.query@.len() - i,
        {
            let term = &self.query[i];
            proof {
                assert(self@[i as int] == str_views(term@));
                assert(self@[i as int].len() >= 1);
            }
            if term.len() > 1 && str_eq(term[1].as_str(), "exclude") {
                let mut s = String::new();
                s.append("without ");
                s.append(term[0].as_str());
                proof {
                    assert(str_views(term@)[0] == term@[0]@);
                    assert(str_views(term@)[1] == term@[1]@);
                }
                parts.push(s);
            } else {
                proof {
                    assert(str_views(term@)[0] == term@[0]@);
                    if term@.len() > 1 {
                        assert(str_views(term@)[1] == term@[1]@);
                    }
                }
                parts.push(term[0].clone());
            }
            i = i + 1;
        }
        proof {
            assert(str_views(parts@) =~= self@.map_values(|t: Seq<Seq<char>>| title_part(t)));
        }
        crate::text::join_strings(&parts, ", ")
    }

    /// Whether the query matches everything.
    pub fn empty(&self) -> (r: bool)
        requires
            self@.len() >= 1 ==> self@[0].len() >= 1,
        ensures
            r == query_empty(self@),
    {
        if self.query.len() < 1 {
            return true;
        }
        proof {
            assert(self@[0] == str_views(self.query@[0]@));
            assert(str_views(self.query@[0]@)[0] == self.query@[0]@[0]@);
        }
        let first = &self.query[0];
        let r = first[0].as_str().unicode_len() == 0;
        proof {
            if self.query@[0]@[0]@.len() == 0 {
                assert(self.query@[0]@[0]@ =~= Seq::<char>::empty());
            }
        }
        r
    }

    /// Whether every required (non-excluded) tag of the query is present.
    pub fn can_all_be_found_in(&self, datapoint_tags: &Vec<String>) -> (r: bool)
        requires
            self.wf(),
        ensures
            r == matches_all(self@, str_views(datapoint_tags@)),
    {
        let mut i: usize = 0;
        while i < self.query.len()
            invariant
                i <= self.query@.len(),
                self.wf(),
                forall|k: int|
                    0 <= k < i && !excluded_term(self@[k]) ==> str_views(
                        datapoint_tags@,
                    ).contains(#[trigger] self@[k][0]),
            decreases self.query@.len() - i,
        {
            let term = &self.query[i];
            proof {
                assert(self@[i as int] == str_views(term@));
                assert(str_views(term@)[0] == term@[0]@);
                if term@.len() > 1 {
                    assert(str_views(term@)[1] == term@[1]@);
                }
            }
            let is_excluded = term.len() > 1 && str_eq(term[1].as_str(), "exclude");
            if !is_excluded {
                if !tag_list_contains(datapoint_tags, &term[0]) {
                    proof {
                        assert(!excluded_term(self@[i as int]));
                        assert(!str_views(datapoint_tags@).contains(self@[i as int][0]));
                    }
                    return false;
                }
            }
            i = i + 1;
        }
        true
    }

    /// The raw terms, copied out.
    pub fn get_raw_parsed(&self) -> (r: Vec<Vec<String>>)
        ensures
            term_views(r@) == self@,
    {
        clone_terms(&self.query)
    }

    /// The tag of every term, in order.
    pub fn get_parsed_tags(&self) -> (r: Vec<String>)
        requires
            self.wf(),
        ensures
            str_views(r@) == self@.map_values(|t: Seq<Seq<char>>| t[0]),
    {
        let mut out: Vec<String> = Vec::new();
        let mut i: usize = 0;
        while i < self.query.len()
            invariant
                i <= self.query@.len(),
                self.wf(),
                out@.len() == i,
                forall|k: int| 0 <= k < i ==> #[trigger] out@[k]@ == self@[k][0],
            decreases self.query@.len() - i,
        {
            proof {
                assert(self@[i as int] == str_views(self.query@[i as int]@));
                assert(str_views(self.query@[i as int]@)[0] == self.query@[i as int]@[0]@);
            }
            out.push(self.query[i][0].clone());
            i = i + 1;
        }
        proof {
            assert(str_views(out@) =~= self@.map_values(|t: Seq<Seq<char>>| t[0]));
        }
        out
    }
}

/// Whether a tag list holds the given tag text.
pub fn tag_list_contains(tags: &Vec<String>, tag: &String) -> (r: bool)
    ensures
        r == str_views(tags@).contains(tag@),
{
    let mut i: usize = 0;
    while i < tags.len()
        invariant
            i <= tags@.len(),
            forall|k: int| 0 <= k < i ==> str_views(tags@)[k] != tag@,
        decreases tags@.len() - i,
    {
        proof {
            assert(str_views(tags@)[i as int] == tags@[i as int]@);
        }
        if str_eq(tags[i].as_str(), tag.as_str()) {
            return true;
        }
        i = i + 1;
    }
    proof {
        assert(!str_views(tags@).contains(tag@)) by {
            if str_views(tags@).contains(tag@) {
                let k = choose|k: int|
                    0 <= k < str_views(tags@).len() && str_views(tags@)[k] == tag@;
            }
        }
    }
    false
}

impl From<Vec<Vec<String>>> for ParsedQuery {
    /// Wraps already-structured terms.
    fn from(parsed_query: Vec<Vec<String>>) -> (r: ParsedQuery) {
        ParsedQuery { query: parsed_query }
    }
}

impl vstd::std_specs::convert::FromSpecImpl<Vec<Vec<String>>> for ParsedQuery {
    open spec fn obeys_from_spec() -> bool {
        true
    }

    closed spec fn from_spec(v: Vec<Vec<String>>) -> ParsedQuery {
        ParsedQuery { query: v }
    }
}

impl<'a> From<&'a str> for ParsedQuery {
    /// Parses a raw query text.
    fn from(query: &'a str) -> (r: ParsedQuery) {
        ParsedQuery::parse(query)
    }
}

impl<'a> vstd::std_specs::convert::FromSpecImpl<&'a str> for ParsedQuery {
    open spec fn obeys_from_spec() -> bool {
        false
    }

    open spec fn from_spec(v: &'a str) -> ParsedQuery {
        arbitrary()
    }
}

} // verus!
