//! Character-level text utilities: splitting, trimming, joining and
//! filtering, each specified over `Seq<char>` views.
use vstd::prelude::*;

verus! {

// ---------------------------------------------------------------------------
// Trusted descriptions of std text behaviour.
// ---------------------------------------------------------------------------
/// Whether `char::is_whitespace` regards `c` as Unicode whitespace.
pub uninterp spec fn is_space(c: char) -> bool;

/// The text that `str::to_lowercase` returns for a given text.
pub uninterp spec fn lower_of(s: Seq<char>) -> Seq<char>;

/// Relies on char::is_whitespace: whether `c` has the Unicode White_Space
/// property, a function of the character alone.
#[verifier::external_body]
pub(crate) fn char_is_space(c: char) -> (r: bool)
    ensures
        r == is_space(c),
{
    c.is_whitespace()
}

/// Relies on String::push: appends the given character to the end.
#[verifier::external_body]
pub(crate) fn push_char(s: &mut String, c: char)
    ensures
        final(s)@ == old(s)@.push(c),
{
    s.push(c);
}

/// Relies on str::to_lowercase: the lowercase form depends on the
/// characters alone.
#[verifier::external_body]
pub(crate) fn to_lowercase(s: &str) -> (r: String)
    ensures
        r@ == lower_of(s@),
{
    s.to_lowercase()
}

// ---------------------------------------------------------------------------
// Views of nested collections.
// ---------------------------------------------------------------------------
/// The character sequences held by a vector of character vectors.
pub open spec fn views(vs: Seq<Vec<char>>) -> Seq<Seq<char>> {
    vs.map_values(|v: Vec<char>| v@)
}

/// The character sequences held by a vector of strings.
pub open spec fn str_views(vs: Seq<String>) -> Seq<Seq<char>> {
    vs.map_values(|v: String| v@)
}

// ---------------------------------------------------------------------------
// Conversions between exec strings and character vectors.
// ---------------------------------------------------------------------------
/// The characters of `s`, one by one.
pub fn chars_of(s: &str) -> (v: Vec<char>)
    ensures
        v@ == s@,
{
    let n: usize = s.unicode_len();
    let mut v: Vec<char> = Vec::new();
    let mut i: usize = 0;
    while i < n
        invariant
            i <= n,
            n == s@.len(),
            v@ == s@.take(i as int),
        decreases n - i,
    {
        let c = s.get_char(i);
        v.push(c);
        i = i + 1;
        assert(v@ =~= s@.take(i as int));
    }
    assert(s@.take(n as int) =~= s@);
    v
}

/// A string holding exactly the characters of `v`.
pub fn string_of(v: &Vec<char>) -> (s: String)
    ensures
        s@ == v@,
{
    let mut s = String::new();
    let mut i: usize = 0;
    while i < v.len()
        invariant
            i <= v@.len(),
            s@ == v@.take(i as int),
        decreases v@.len() - i,
    {
        push_char(&mut s, v[i]);
        i = i + 1;
        assert(s@ =~= v@.take(i as int));
    }
    assert(v@.take(v@.len() as int) =~= v@);
    s
}

/// Decides whether two string slices hold the same characters.
pub fn str_eq(a: &str, b: &str) -> (r: bool)
    ensures
        r == (a@ == b@),
{
    let na: usize = a.unicode_len();
    let nb: usize = b.unicode_len();
    if na != nb {
        return false;
    }
    let mut i: usize = 0;
    while i < na
        invariant
            i <= na,
            na == a@.len(),
            na == b@.len(),
            forall|k: int| 0 <= k < i ==> a@[k] == b@[k],
        decreases na - i,
    {
        if a.get_char(i) != b.get_char(i) {
            return false;
        }
        i = i + 1;
    }
    assert(a@ =~= b@);
    true
}

// ---------------------------------------------------------------------------
// Splitting on a separator character.
// ---------------------------------------------------------------------------
/// The segments of `s` between occurrences of `sep`; always at least one
/// segment, and empty segments are kept.
pub open spec fn split_char(s: Seq<char>, sep: char) -> Seq<Seq<char>>
    decreases s.len(),
{
    if s.len() == 0 {
        seq![Seq::<char>::empty()]
    } else {
        let pre = split_char(s.drop_last(), sep);
        if s.last() == sep {
            pre.push(Seq::<char>::empty())
        } else {
            pre.update(pre.len() - 1, pre.last().push(s.last()))
        }
    }
}

pub proof fn lemma_split_char_len(s: Seq<char>, sep: char)
    ensures
        split_char(s, sep).len() >= 1,
    decreases s.len(),
{
    if s.len() > 0 {
        lemma_split_char_len(s.drop_last(), sep);
    }
}

/// Splits `v` at every occurrence of `sep`.
pub fn vec_split_char(v: &Vec<char>, sep: char) -> (r: Vec<Vec<char>>)
    ensures
        views(r@) == split_char(v@, sep),
{
    let mut done: Vec<Vec<char>> = Vec::new();
    let mut cur: Vec<char> = Vec::new();
    let mut i: usize = 0;
    while i < v.len()
        invariant
            i <= v@.len(),
            views(done@).push(cur@) =~= split_char(v@.take(i as int), sep),
        decreases v@.len() - i,
    {
        let ghost pre = split_char(v@.take(i as int), sep);
        proof {
            assert(v@.take(i + 1).drop_last() =~= v@.take(i as int));
            assert(v@.take(i + 1).last() == v@[i as int]);
        }
        let c = v[i];
        if c == sep {
            done.push(cur);
            cur = Vec::new();
            proof {
                assert(views(done@).push(cur@) =~= pre.push(Seq::<char>::empty()));
            }
        } else {
            cur.push(c);
            proof {
                lemma_split_char_len(v@.take(i as int), sep);
                assert(views(done@).push(cur@) =~= pre.update(
                    pre.len() - 1,
                    pre.last().push(v@[i as int]),
                ));
            }
        }
        i = i + 1;
    }
    proof {
        assert(v@.take(v@.len() as int) =~= v@);
    }
    done.push(cur);
    done
}

// ---------------------------------------------------------------------------
// Whitespace tokens.
// ---------------------------------------------------------------------------
/// The segments of `s` between whitespace characters, empty segments kept.
pub open spec fn split_space(s: Seq<char>) -> Seq<Seq<char>>
    decreases s.len(),
{
    if s.len() == 0 {
        seq![Seq::<char>::empty()]
    } else {
        let pre = split_space(s.drop_last());
        if is_space(s.last()) {
            pre.push(Seq::<char>::empty())
        } else {
            pre.update(pre.len() - 1, pre.last().push(s.last()))
        }
    }
}

pub proof fn lemma_split_space_len(s: Seq<char>)
    ensures
        split_space(s).len() >= 1,
    decreases s.len(),
{
    if s.len() > 0 {
        lemma_split_space_len(s.drop_last());
    }
}

/// The whitespace-separated tokens of `s`: maximal runs of non-whitespace.
pub open spec fn ws_tokens(s: Seq<char>) -> Seq<Seq<char>> {
    split_space(s).filter(|t: Seq<char>| t.len() > 0)
}

/// Splits `v` at every whitespace character, keeping empty segments.
pub fn vec_split_space(v: &Vec<char>) -> (r: Vec<Vec<char>>)
    ensures
        views(r@) == split_space(v@),
{
    let mut done: Vec<Vec<char>> = Vec::new();
    let mut cur: Vec<char> = Vec::new();
    let mut i: usize = 0;
    while i < v.len()
        invariant
            i <= v@.len(),
            views(done@).push(cur@) =~= split_space(v@.take(i as int)),
        decreases v@.len() - i,
    {
        let ghost pre = split_space(v@.take(i as int));
        proof {
            assert(v@.take(i + 1).drop_last() =~= v@.take(i as int));
            assert(v@.take(i + 1).last() == v@[i as int]);
        }
        let c = v[i];
        if char_is_space(c) {
            done.push(cur);
            cur = Vec::new();
            proof {
                assert(views(done@).push(cur@) =~= pre.push(Seq::<char>::empty()));
            }
        } else {
            cur.push(c);
            proof {
                lemma_split_space_len(v@.take(i as int));
                assert(views(done@).push(cur@) =~= pre.update(
                    pre.len() - 1,
                    pre.last().push(v@[i as int]),
                ));
            }
        }
        i = i + 1;
    }
    proof {
        assert(v@.take(v@.len() as int) =~= v@);
    }
    done.push(cur);
    done
}

/// Keeps the non-empty segments, in order.
pub fn keep_non_empty(parts: Vec<Vec<char>>) -> (r: Vec<Vec<char>>)
    ensures
        views(r@) == views(parts@).filter(|t: Seq<char>| t.len() > 0),
{
    let mut out: Vec<Vec<char>> = Vec::new();
    let mut i: usize = 0;
    while i < parts.len()
        invariant
            i <= parts@.len(),
            views(out@) =~= views(parts@.take(i as int)).filter(|t: Seq<char>| t.len() > 0),
        decreases parts@.len() - i,
    {
        let ghost prev = views(parts@.take(i as int));
        proof {
            assert(views(parts@.take(i + 1)).drop_last() =~= prev);
            assert(views(parts@.take(i + 1)).last() == parts@[i as int]@);
            reveal_with_fuel(Seq::filter, 2);
        }
        if parts[i].len() > 0 {
            let p = &parts[i];
            let mut copy: Vec<char> = Vec::new();
            let mut j: usize = 0;
            while j < p.len()
                invariant
                    j <= p@.len(),
                    copy@ == p@.take(j as int),
                decreases p@.len() - j,
            {
                copy.push(p[j]);
                j = j + 1;
                assert(copy@ =~= p@.take(j as int));
            }
            assert(copy@ =~= p@);
            out.push(copy);
        }
        i = i + 1;
    }
    proof {
        assert(parts@.take(parts@.len() as int) =~= parts@);
    }
    out
}

/// The whitespace-separated tokens of `v`.
pub fn vec_ws_tokens(v: &Vec<char>) -> (r: Vec<Vec<char>>)
    ensures
        views(r@) == ws_tokens(v@),
{
    let parts = vec_split_space(v);
    keep_non_empty(parts)
}

// ---------------------------------------------------------------------------
// Trimming.
// ---------------------------------------------------------------------------
pub open spec fn trim_end(s: Seq<char>) -> Seq<char>
    decreases s.len(),
{
    if s.len() > 0 && is_space(s.last()) {
        trim_end(s.drop_last())
    } else {
        s
    }
}

pub open spec fn trim_start(s: Seq<char>) -> Seq<char>
    decreases s.len(),
{
    if s.len() > 0 && is_space(s[0]) {
        trim_start(s.skip(1))
    } else {
        s
    }
}

/// `s` without leading and trailing whitespace.
pub open spec fn trim(s: Seq<char>) -> Seq<char> {
    trim_start(trim_end(s))
}

/// Removes leading and trailing whitespace characters.
pub fn vec_trim(v: &Vec<char>) -> (r: Vec<char>)
    ensures
        r@ == trim(v@),
{
    let mut hi: usize = v.len();
    proof {
        assert(v@.take(hi as int) =~= v@);
    }
    while hi > 0 && char_is_space(v[hi - 1])
        invariant
            hi <= v@.len(),
            trim_end(v@) == trim_end(v@.take(hi as int)),
        decreases hi,
    {
        proof {
            assert(v@.take(hi as int).drop_last() =~= v@.take(hi - 1));
            assert(v@.take(hi as int).last() == v@[hi - 1]);
        }
        hi = hi - 1;
    }
    proof {
        assert(trim_end(v@.take(hi as int)) =~= v@.take(hi as int));
    }
    let mut lo: usize = 0;
    proof {
        assert(v@.take(hi as int).skip(0) =~= v@.take(hi as int));
    }
    while lo < hi && char_is_space(v[lo])
        invariant
            lo <= hi <= v@.len(),
            trim_end(v@) == v@.take(hi as int),
            trim_start(v@.take(hi as int)) == trim_start(v@.take(hi as int).skip(lo as int)),
        decreases hi - lo,
    {
        proof {
            assert(v@.take(hi as int).skip(lo as int)[0] == v@[lo as int]);
            assert(v@.take(hi as int).skip(lo as int).skip(1) =~= v@.take(hi as int).skip(
                lo + 1,
            ));
        }
        lo = lo + 1;
    }
    proof {
        assert(trim_start(v@.take(hi as int).skip(lo as int)) =~= v@.take(hi as int).skip(
            lo as int,
        ));
    }
    let mut out: Vec<char> = Vec::new();
    let mut j: usize = lo;
    while j < hi
        invariant
            lo <= j <= hi <= v@.len(),
            out@ == v@.subrange(lo as int, j as int),
        decreases hi - j,
    {
        out.push(v[j]);
        j = j + 1;
        assert(out@ =~= v@.subrange(lo as int, j as int));
    }
    proof {
        assert(v@.subrange(lo as int, hi as int) =~= v@.take(hi as int).skip(lo as int));
    }
    out
}

// ---------------------------------------------------------------------------
// Character replacement and joining.
// ---------------------------------------------------------------------------
/// Turns a plus sign into a blank, as the query tokenizer does.
pub open spec fn plus_to_space(c: char) -> char {
    if c == '+' {
        ' '
    } else {
        c
    }
}

/// Replaces every plus sign with a blank.
pub fn vec_plus_to_space(v: &Vec<char>) -> (r: Vec<char>)
    ensures
        r@ == v@.map_values(|c: char| plus_to_space(c)),
{
    let mut out: Vec<char> = Vec::new();
    let mut i: usize = 0;
    while i < v.len()
        invariant
            i <= v@.len(),
            out@ =~= v@.take(i as int).map_values(|c: char| plus_to_space(c)),
        decreases v@.len() - i,
    {
        let c = v[i];
        if c == '+' {
            out.push(' ');
        } else {
            out.push(c);
        }
        i = i + 1;
        assert(out@ =~= v@.take(i as int).map_values(|c: char| plus_to_space(c)));
    }
    proof {
        assert(v@.take(v@.len() as int) =~= v@);
    }
    out
}

/// The parts joined with `sep` between consecutive parts.
pub open spec fn join_with(parts: Seq<Seq<char>>, sep: Seq<char>) -> Seq<char>
    decreases parts.len(),
{
    if parts.len() == 0 {
        Seq::<char>::empty()
    } else if parts.len() == 1 {
        parts[0]
    } else {
        join_with(parts.drop_last(), sep) + sep + parts.last()
    }
}

/// Joins string parts with the given separator text.
pub fn join_strings(parts: &Vec<String>, sep: &str) -> (r: String)
    ensures
        r@ == join_with(str_views(parts@), sep@),
{
    let mut out = String::new();
    let mut i: usize = 0;
    while i < parts.len()
        invariant
            i <= parts@.len(),
            out@ == join_with(str_views(parts@.take(i as int)), sep@),
        decreases parts@.len() - i,
    {
        proof {
            assert(str_views(parts@.take(i + 1)).drop_last() =~= str_views(parts@.take(i as int)));
            assert(str_views(parts@.take(i + 1)).last() == parts@[i as int]@);
        }
        if i > 0 {
            out.append(sep);
        }
        out.append(parts[i].as_str());
        i = i + 1;
    }
    proof {
        assert(str_views(parts@.take(parts@.len() as int)) =~= str_views(parts@));
    }
    out
}

/// A copy of a vector of strings, equal element by element.
pub fn clone_strings(v: &Vec<String>) -> (r: Vec<String>)
    ensures
        r@ == v@,
{
    let mut out: Vec<String> = Vec::new();
    let mut i: usize = 0;
    while i < v.len()
        invariant
            i <= v@.len(),
            out@ == v@.take(i as int),
        decreases v@.len() - i,
    {
        out.push(v[i].clone());
        i = i + 1;
        assert(out@ =~= v@.take(i as int));
    }
    assert(v@.take(v@.len() as int) =~= v@);
    out
}

// ---------------------------------------------------------------------------
// Numeric character filtering.
// ---------------------------------------------------------------------------
/// The characters the `value` modifier keeps: decimal digits and the dot.
pub open spec fn keeps_numeric(c: char) -> bool {
    (48 <= c as u32 && c as u32 <= 57) || c == '.'
}

/// The digits and dots of `s`, in order.
pub open spec fn numeric_part(s: Seq<char>) -> Seq<char> {
    s.filter(|c: char| keeps_numeric(c))
}

/// Keeps only digits and dots.
pub fn vec_numeric_part(v: &Vec<char>) -> (r: Vec<char>)
    ensures
        r@ == numeric_part(v@),
{
    let mut out: Vec<char> = Vec::new();
    let mut i: usize = 0;
    while i < v.len()
        invariant
            i <= v@.len(),
            out@ =~= v@.take(i as int).filter(|c: char| keeps_numeric(c)),
        decreases v@.len() - i,
    {
        let c = v[i];
        proof {
            assert(v@.take(i + 1).drop_last() =~= v@.take(i as int));
            assert(v@.take(i + 1).last() == v@[i as int]);
            reveal_with_fuel(Seq::filter, 2);
        }
        let u = c as u32;
        if (48 <= u && u <= 57) || c == '.' {
            out.push(c);
        }
        i = i + 1;
    }
    proof {
        assert(v@.take(v@.len() as int) =~= v@);
    }
    out
}

/// Whether a digits-and-dots text reads as one decimal number: at least one
/// digit and at most one dot.
pub open spec fn numeric_text(s: Seq<char>) -> bool {
    &&& s.filter(|c: char| 48 <= c as u32 && c as u32 <= 57).len() >= 1
    &&& s.filter(|c: char| c == '.').len() <= 1
}

/// Decides `numeric_text` for the characters of `s`.
pub fn is_numeric_text(s: &str) -> (r: bool)
    ensures
        r == numeric_text(s@),
{
    let v = chars_of(s);
    let mut digits: usize = 0;
    let mut dots: usize = 0;
    let mut i: usize = 0;
    while i < v.len()
        invariant
            i <= v@.len(),
            v@ == s@,
            digits == v@.take(i as int).filter(|c: char| 48 <= c as u32 && c as u32 <= 57).len(),
            dots == v@.take(i as int).filter(|c: char| c == '.').len(),
            digits <= i,
            dots <= i,
        decreases v@.len() - i,
    {
        let c = v[i];
        proof {
            assert(v@.take(i + 1).drop_last() =~= v@.take(i as int));
            assert(v@.take(i + 1).last() == v@[i as int]);
            reveal_with_fuel(Seq::filter, 2);
        }
        let u = c as u32;
        if 48 <= u && u <= 57 {
            digits = digits + 1;
        }
        if c == '.' {
            dots = dots + 1;
        }
        i = i + 1;
    }
    proof {
        assert(v@.take(v@.len() as int) =~= v@);
    }
    digits >= 1 && dots <= 1
}

} // verus!
