//! Scanning for `/author/<name>` occurrences.
//!
//! Two of the three extraction rules look for the literal marker `/author/`
//! followed by a nonempty run of characters from a class: the redirect rule
//! takes the first such occurrence in a `Location` header value, the
//! hyperlink rule takes every non-overlapping occurrence in a body. An
//! occurrence's optional trailing slash is consumed, so the next scan
//! resumes after it.

use vstd::prelude::*;

use crate::chars::{
    is_link_char, is_seg_char, is_space_char, link_char, seg_char, space_char,
};

verus! {

/// The character classes whose maximal runs the scanners measure.
#[derive(Clone, Copy)]
pub enum CharClass {
    /// Characters allowed in a hyperlinked author name.
    Link,
    /// Characters allowed in a URL path segment (anything but `/`).
    Seg,
    /// Characters of a whitespace-separated word (anything but whitespace).
    Word,
    /// Characters of a double-quoted attribute value (anything but `"`).
    NonQuote,
}

pub open spec fn in_class(cl: CharClass, c: char) -> bool {
    match cl {
        CharClass::Link => is_link_char(c),
        CharClass::Seg => is_seg_char(c),
        CharClass::Word => !is_space_char(c),
        CharClass::NonQuote => c != '"',
    }
}

pub fn char_in_class(cl: CharClass, c: char) -> (b: bool)
    ensures
        b == in_class(cl, c),
{
    match cl {
        CharClass::Link => link_char(c),
        CharClass::Seg => seg_char(c),
        CharClass::Word => !space_char(c),
        CharClass::NonQuote => c != '"',
    }
}

/// Length of the maximal run of characters of class `cl` starting at `i`.
pub open spec fn run_of(s: Seq<char>, i: int, cl: CharClass) -> int
    decreases s.len() - i,
{
    if i < 0 || i >= s.len() || !in_class(cl, s[i]) {
        0
    } else {
        1 + run_of(s, i + 1, cl)
    }
}

pub proof fn lemma_run_of_bounds(s: Seq<char>, i: int, cl: CharClass)
    requires
        0 <= i <= s.len(),
    ensures
        0 <= run_of(s, i, cl),
        i + run_of(s, i, cl) <= s.len(),
    decreases s.len() - i,
{
    if i < s.len() && in_class(cl, s[i]) {
        lemma_run_of_bounds(s, i + 1, cl);
    }
}

/// Every character inside a run belongs to the class.
pub proof fn lemma_run_of_chars(s: Seq<char>, i: int, cl: CharClass)
    requires
        0 <= i <= s.len(),
    ensures
        forall|k: int| i <= k < i + run_of(s, i, cl) ==> in_class(cl, s[k]),
    decreases s.len() - i,
{
    if i < s.len() && in_class(cl, s[i]) {
        lemma_run_of_chars(s, i + 1, cl);
    }
}

/// A run is exactly `n` when the `n` characters from `i` are in the class
/// and the run is not extendable.
pub proof fn lemma_run_of_exact(s: Seq<char>, i: int, n: int, cl: CharClass)
    requires
        0 <= i,
        0 <= n,
        i + n <= s.len(),
        forall|k: int| i <= k < i + n ==> in_class(cl, s[k]),
        i + n == s.len() || !in_class(cl, s[i + n]),
    ensures
        run_of(s, i, cl) == n,
    decreases n,
{
    if n > 0 {
        lemma_run_of_exact(s, i + 1, n - 1, cl);
    }
}

/// The literal marker `/author/` stands at position `i`.
pub open spec fn marker_at(s: Seq<char>, i: int) -> bool {
    &&& 0 <= i
    &&& i + 8 <= s.len()
    &&& s[i] == '/'
    &&& s[i + 1] == 'a'
    &&& s[i + 2] == 'u'
    &&& s[i + 3] == 't'
    &&& s[i + 4] == 'h'
    &&& s[i + 5] == 'o'
    &&& s[i + 6] == 'r'
    &&& s[i + 7] == '/'
}

pub fn marker_matches(s: &str, i: usize) -> (b: bool)
    requires
        i + 8 <= s@.len(),
        s@.len() <= usize::MAX,
    ensures
        b == marker_at(s@, i as int),
{
    s.get_char(i) == '/' && s.get_char(i + 1) == 'a' && s.get_char(i + 2) == 'u' && s.get_char(
        i + 3,
    ) == 't' && s.get_char(i + 4) == 'h' && s.get_char(i + 5) == 'o' && s.get_char(i + 6) == 'r'
        && s.get_char(i + 7) == '/'
}

/// A hyperlink-rule match starts at `i`: the marker followed by at least
/// one link character.
pub open spec fn link_match_at(s: Seq<char>, i: int) -> bool {
    marker_at(s, i) && run_of(s, i + 8, CharClass::Link) > 0
}

/// The name captured by a hyperlink-rule match at `i`.
pub open spec fn link_match_name(s: Seq<char>, i: int) -> Seq<char> {
    s.subrange(i + 8, i + 8 + run_of(s, i + 8, CharClass::Link))
}

/// Where scanning resumes after the match at `i`: past the captured name
/// and past one trailing slash, if there is one.
pub open spec fn link_match_next(s: Seq<char>, i: int) -> int {
    let stop = i + 8 + run_of(s, i + 8, CharClass::Link);
    if stop < s.len() && s[stop] == '/' {
        stop + 1
    } else {
        stop
    }
}

/// All names captured by scanning `s` left to right from `i`, leftmost
/// match first, matches non-overlapping.
pub open spec fn link_names_from(s: Seq<char>, i: int) -> Seq<Seq<char>>
    decreases s.len() - i,
    via link_names_from_dec
{
    if i < 0 || i + 8 > s.len() {
        Seq::empty()
    } else if link_match_at(s, i) {
        seq![link_match_name(s, i)] + link_names_from(s, link_match_next(s, i))
    } else {
        link_names_from(s, i + 1)
    }
}

#[via_fn]
proof fn link_names_from_dec(s: Seq<char>, i: int) {
    if !(i < 0 || i + 8 > s.len()) && link_match_at(s, i) {
        lemma_run_of_bounds(s, i + 8, CharClass::Link);
    }
}

/// The names the hyperlink rule discovers in a body.
pub open spec fn link_names(s: Seq<char>) -> Seq<Seq<char>> {
    link_names_from(s, 0)
}

/// The name the redirect rule takes from a `Location` value: the first
/// occurrence of the marker followed by a nonempty run of non-slash
/// characters.
pub open spec fn loc_name_from(s: Seq<char>, i: int) -> Option<Seq<char>>
    decreases s.len() - i,
{
    if i < 0 || i + 8 > s.len() {
        None
    } else if marker_at(s, i) && run_of(s, i + 8, CharClass::Seg) > 0 {
        Some(s.subrange(i + 8, i + 8 + run_of(s, i + 8, CharClass::Seg)))
    } else {
        loc_name_from(s, i + 1)
    }
}

pub open spec fn loc_name(s: Seq<char>) -> Option<Seq<char>> {
    loc_name_from(s, 0)
}

/// Length of the maximal run of class `cl` starting at `start`.
pub fn run_len(s: &str, start: usize, cl: CharClass) -> (n: usize)
    requires
        start <= s@.len(),
    ensures
        n == run_of(s@, start as int, cl),
        start + n <= s@.len(),
{
    let len = s.unicode_len();
    let mut k = start;
    while k < len && char_in_class(cl, s.get_char(k))
        invariant
            start <= k <= len,
            len == s@.len(),
            run_of(s@, start as int, cl) == k - start + run_of(s@, k as int, cl),
        decreases len - k,
    {
        assert(run_of(s@, k as int, cl) == 1 + run_of(s@, k + 1, cl));
        k = k + 1;
    }
    assert(run_of(s@, k as int, cl) == 0);
    k - start
}

/// The name the redirect rule yields for a `Location` value, if any.
pub fn location_name(loc: &str) -> (r: Option<String>)
    ensures
        r.deep_view() == loc_name(loc@),
{
    let len = loc.unicode_len();
    if len < 8 {
        return None;
    }
    let mut i: usize = 0;
    while i <= len - 8
        invariant
            len == loc@.len(),
            8 <= len,
            i <= len - 8 + 1,
            loc_name(loc@) == loc_name_from(loc@, i as int),
        decreases len - i,
    {
        if marker_matches(loc, i) {
            let run = run_len(loc, i + 8, CharClass::Seg);
            if run > 0 {
                let name = loc.substring_char(i + 8, i + 8 + run);
                let owned = String::from_str(name);
                return Some(owned);
            }
        }
        assert(loc_name_from(loc@, i as int) == loc_name_from(loc@, i + 1));
        i = i + 1;
    }
    assert(loc_name_from(loc@, i as int) is None);
    None
}

/// The scan from `j` reaches the match at `p` whenever no earlier match
/// consumes past `p`, and so captures its name.
proof fn lemma_link_scan_reaches(s: Seq<char>, j: int, p: int)
    requires
        0 <= j <= p,
        link_match_at(s, p),
        forall|q: int| j <= q < p && #[trigger] link_match_at(s, q) ==> link_match_next(s, q) <= p,
    ensures
        link_names_from(s, j).contains(link_match_name(s, p)),
    decreases p - j,
{
    if j == p {
        assert(link_names_from(s, j)[0] == link_match_name(s, p));
        assert(link_names_from(s, j).contains(link_match_name(s, p)));
    } else if link_match_at(s, j) {
        let nx = link_match_next(s, j);
        assert(nx <= p);
        lemma_run_of_bounds(s, j + 8, CharClass::Link);
        lemma_link_scan_reaches(s, nx, p);
        let rest = link_names_from(s, nx);
        let idx = choose|m: int| 0 <= m < rest.len() && rest[m] == link_match_name(s, p);
        assert(link_names_from(s, j)[idx + 1] == link_match_name(s, p));
        assert(link_names_from(s, j).contains(link_match_name(s, p)));
    } else {
        lemma_link_scan_reaches(s, j + 1, p);
    }
}

/// Law: the hyperlink rule finds every double-quoted author link. Where
/// `/author/` stands right after a `"` and is followed by a maximal
/// nonempty run of link characters — the name, with an optional trailing
/// slash or any other terminator after it — the scan of the whole body
/// captures that name, wherever the occurrence stands.
pub proof fn lemma_link_rule_finds_quoted(s: Seq<char>, p: int, name: Seq<char>)
    requires
        1 <= p,
        s[p - 1] == '"',
        marker_at(s, p),
        name.len() >= 1,
        p + 8 + name.len() <= s.len(),
        forall|k: int| 0 <= k < name.len() ==> is_link_char(#[trigger] name[k]),
        s.subrange(p + 8, p + 8 + name.len()) == name,
        p + 8 + name.len() == s.len() || !is_link_char(s[p + 8 + name.len()]),
    ensures
        link_names(s).contains(name),
{
    assert forall|k: int| p + 8 <= k < p + 8 + name.len() implies in_class(
        CharClass::Link,
        s[k],
    ) by {
        assert(name[k - (p + 8)] == s[k]);
    }
    lemma_run_of_exact(s, p + 8, name.len() as int, CharClass::Link);
    assert(link_match_at(s, p));
    assert(link_match_name(s, p) == name);
    assert forall|q: int| 0 <= q < p && #[trigger] link_match_at(s, q) implies link_match_next(
        s,
        q,
    ) <= p by {
        if q >= p - 8 {
            let t = p - 1 - q;
            assert(0 <= t < 8);
            if t == 0 {
                assert(s[p - 1] == '/');
            } else if t == 1 {
                assert(s[p - 1] == 'a');
            } else if t == 2 {
                assert(s[p - 1] == 'u');
            } else if t == 3 {
                assert(s[p - 1] == 't');
            } else if t == 4 {
                assert(s[p - 1] == 'h');
            } else if t == 5 {
                assert(s[p - 1] == 'o');
            } else if t == 6 {
                assert(s[p - 1] == 'r');
            } else {
                assert(s[p - 1] == '/');
            }
            assert(false);
        }
        let run = run_of(s, q + 8, CharClass::Link);
        lemma_run_of_bounds(s, q + 8, CharClass::Link);
        lemma_run_of_chars(s, q + 8, CharClass::Link);
        if q + 8 + run > p - 1 {
            assert(in_class(CharClass::Link, s[p - 1]));
            assert(false);
        }
    }
    lemma_link_scan_reaches(s, 0, p);
}

/// Law: the hyperlink rule captures only well-formed names. Every name
/// it discovers is nonempty and consists of link characters alone.
pub proof fn lemma_link_names_sound(s: Seq<char>, k: int)
    requires
        0 <= k < link_names(s).len(),
    ensures
        link_names(s)[k].len() >= 1,
        forall|m: int| 0 <= m < link_names(s)[k].len() ==> is_link_char(#[trigger] link_names(
            s,
        )[k][m]),
{
    lemma_link_names_from_sound(s, 0, k);
}

proof fn lemma_link_names_from_sound(s: Seq<char>, i: int, k: int)
    requires
        0 <= i,
        0 <= k < link_names_from(s, i).len(),
    ensures
        link_names_from(s, i)[k].len() >= 1,
        forall|m: int| 0 <= m < link_names_from(s, i)[k].len() ==> is_link_char(
            #[trigger] link_names_from(s, i)[k][m],
        ),
    decreases s.len() - i,
{
    if i + 8 > s.len() {
    } else if link_match_at(s, i) {
        lemma_run_of_bounds(s, i + 8, CharClass::Link);
        if k == 0 {
            lemma_run_of_chars(s, i + 8, CharClass::Link);
            assert forall|m: int| 0 <= m < link_names_from(s, i)[0].len() implies is_link_char(
                link_names_from(s, i)[0][m],
            ) by {
                assert(link_names_from(s, i)[0][m] == s[i + 8 + m]);
            }
        } else {
            lemma_link_names_from_sound(s, link_match_next(s, i), k - 1);
            assert(link_names_from(s, i)[k] == link_names_from(s, link_match_next(s, i))[k - 1]);
        }
    } else {
        lemma_link_names_from_sound(s, i + 1, k);
    }
}

/// Law: the redirect rule captures only well-formed names: nonempty and
/// free of slashes.
pub proof fn lemma_loc_name_sound(s: Seq<char>)
    ensures
        loc_name(s) is Some ==> loc_name(s)->Some_0.len() >= 1,
        loc_name(s) is Some ==> forall|m: int| 0 <= m < loc_name(s)->Some_0.len()
            ==> is_seg_char(#[trigger] loc_name(s)->Some_0[m]),
{
    lemma_loc_name_from_sound(s, 0);
}

proof fn lemma_loc_name_from_sound(s: Seq<char>, i: int)
    requires
        0 <= i,
    ensures
        loc_name_from(s, i) is Some ==> loc_name_from(s, i)->Some_0.len() >= 1,
        loc_name_from(s, i) is Some ==> forall|m: int| 0 <= m < loc_name_from(s, i)->Some_0.len()
            ==> is_seg_char(#[trigger] loc_name_from(s, i)->Some_0[m]),
    decreases s.len() - i,
{
    if i + 8 > s.len() {
    } else if marker_at(s, i) && run_of(s, i + 8, CharClass::Seg) > 0 {
        lemma_run_of_bounds(s, i + 8, CharClass::Seg);
        lemma_run_of_chars(s, i + 8, CharClass::Seg);
        let name = loc_name_from(s, i)->Some_0;
        assert forall|m: int| 0 <= m < name.len() implies is_seg_char(name[m]) by {
            assert(name[m] == s[i + 8 + m]);
        }
    } else {
        lemma_loc_name_from_sound(s, i + 1);
    }
}

/// Every name the hyperlink rule discovers in `body`, in scan order.
pub fn find_link_names(body: &str) -> (r: Vec<String>)
    ensures
        r.deep_view() == link_names(body@),
{
    let len = body.unicode_len();
    let mut out: Vec<String> = Vec::new();
    if len < 8 {
        assert(out.deep_view() =~= link_names(body@));
        return out;
    }
    let mut i: usize = 0;
    while i <= len - 8
        invariant
            len == body@.len(),
            8 <= len,
            i <= len,
            link_names(body@) =~= out.deep_view() + link_names_from(body@, i as int),
        decreases len - i,
    {
        let ghost prev_dv = out.deep_view();
        if marker_matches(body, i) {
            let run = run_len(body, i + 8, CharClass::Link);
            if run > 0 {
                let stop = i + 8 + run;
                let name = body.substring_char(i + 8, stop);
                let owned = String::from_str(name);
                out.push(owned);
                assert(out.deep_view() =~= prev_dv.push(link_match_name(body@, i as int)));
                let next = if stop < len && body.get_char(stop) == '/' {
                    stop + 1
                } else {
                    stop
                };
                proof {
                    assert(next == link_match_next(body@, i as int));
                    assert(link_names_from(body@, i as int) =~= seq![
                        link_match_name(body@, i as int),
                    ] + link_names_from(body@, next as int));
                    assert(out.deep_view() + link_names_from(body@, next as int) =~= prev_dv
                        + link_names_from(body@, i as int));
                }
                i = next;
                continue ;
            }
        }
        assert(link_names_from(body@, i as int) == link_names_from(body@, i + 1));
        i = i + 1;
    }
    assert(link_names_from(body@, i as int) =~= Seq::<Seq<char>>::empty());
    assert(out.deep_view() =~= link_names(body@));
    out
}

} // verus!
