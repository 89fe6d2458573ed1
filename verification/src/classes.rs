//! The body-class rule.
//!
//! WordPress renders the author archive with a body tag whose `class`
//! attribute carries both an `author-<name>` token and an `author-<id>`
//! token. The rule takes the first double-quoted `class` attribute of the
//! body (an attribute without a closing quote is not an attribute), splits
//! its value on whitespace, and accepts the suffix of an `author-` name
//! token only when a purely numeric `author-` token stands beside it.
//! Among several name tokens the last one wins.

use vstd::prelude::*;

use crate::chars::{is_class_char, is_digit_char, is_space_char, space_char};
use crate::scan::{lemma_run_of_bounds, run_len, run_of, CharClass};

verus! {

/// The literal marker `class="` stands at position `i`.
pub open spec fn class_marker_at(s: Seq<char>, i: int) -> bool {
    &&& 0 <= i
    &&& i + 7 <= s.len()
    &&& s[i] == 'c'
    &&& s[i + 1] == 'l'
    &&& s[i + 2] == 'a'
    &&& s[i + 3] == 's'
    &&& s[i + 4] == 's'
    &&& s[i + 5] == '='
    &&& s[i + 6] == '"'
}

/// The value of the first double-quoted `class` attribute of `s`, if `s`
/// holds one that is closed by a second quote.
pub open spec fn class_attr_from(s: Seq<char>, i: int) -> Option<Seq<char>>
    decreases s.len() - i,
{
    if i < 0 || i + 7 > s.len() {
        None
    } else if class_marker_at(s, i) {
        if i + 7 + run_of(s, i + 7, CharClass::NonQuote) < s.len() {
            Some(s.subrange(i + 7, i + 7 + run_of(s, i + 7, CharClass::NonQuote)))
        } else {
            None
        }
    } else {
        class_attr_from(s, i + 1)
    }
}

pub open spec fn class_attr(s: Seq<char>) -> Option<Seq<char>> {
    class_attr_from(s, 0)
}

/// The whitespace-separated words of `s`, in order.
pub open spec fn words_from(s: Seq<char>, i: int) -> Seq<Seq<char>>
    decreases s.len() - i,
    via words_from_dec
{
    if i < 0 || i >= s.len() {
        Seq::empty()
    } else if is_space_char(s[i]) {
        words_from(s, i + 1)
    } else {
        seq![s.subrange(i, i + run_of(s, i, CharClass::Word))] + words_from(
            s,
            i + run_of(s, i, CharClass::Word),
        )
    }
}

#[via_fn]
proof fn words_from_dec(s: Seq<char>, i: int) {
    if 0 <= i < s.len() && !is_space_char(s[i]) {
        lemma_run_of_bounds(s, i, CharClass::Word);
        lemma_run_of_bounds(s, i + 1, CharClass::Word);
        assert(run_of(s, i, CharClass::Word) == 1 + run_of(s, i + 1, CharClass::Word));
    }
}

pub open spec fn words(s: Seq<char>) -> Seq<Seq<char>> {
    words_from(s, 0)
}

/// The token begins with the literal `author-` and has a nonempty suffix.
pub open spec fn author_token(t: Seq<char>) -> bool {
    &&& t.len() >= 8
    &&& t[0] == 'a'
    &&& t[1] == 'u'
    &&& t[2] == 't'
    &&& t[3] == 'h'
    &&& t[4] == 'o'
    &&& t[5] == 'r'
    &&& t[6] == '-'
}

/// What follows `author-` in the token.
pub open spec fn token_suffix(t: Seq<char>) -> Seq<char> {
    t.subrange(7, t.len() as int)
}

pub open spec fn all_digits(s: Seq<char>) -> bool {
    forall|k: int| 0 <= k < s.len() ==> is_digit_char(s[k])
}

pub open spec fn all_class_chars(s: Seq<char>) -> bool {
    forall|k: int| 0 <= k < s.len() ==> is_class_char(s[k])
}

/// An `author-<digits>` token: the numeric author-ID class.
pub open spec fn id_token(t: Seq<char>) -> bool {
    author_token(t) && all_digits(token_suffix(t))
}

/// An `author-<name>` token: class characters, not purely digits.
pub open spec fn name_token(t: Seq<char>) -> bool {
    author_token(t) && all_class_chars(token_suffix(t)) && !all_digits(token_suffix(t))
}

pub open spec fn has_id_token(toks: Seq<Seq<char>>) -> bool {
    exists|k: int| 0 <= k < toks.len() && id_token(toks[k])
}

/// The suffix of the last name token, if any.
pub open spec fn last_name_suffix(toks: Seq<Seq<char>>) -> Option<Seq<char>>
    decreases toks.len(),
{
    if toks.len() == 0 {
        None
    } else if name_token(toks.last()) {
        Some(token_suffix(toks.last()))
    } else {
        last_name_suffix(toks.drop_last())
    }
}

/// The name the body-class rule yields for a body, if any: the last name
/// token's suffix, and only beside a numeric author-ID token.
pub open spec fn class_rule_name(body: Seq<char>) -> Option<Seq<char>> {
    match class_attr(body) {
        Some(content) => if has_id_token(words(content)) {
            last_name_suffix(words(content))
        } else {
            None
        },
        None => None,
    }
}

/// Law: the body-class rule accepts a name only beside a numeric
/// author-ID token. Whenever it yields a name, the body has a closed
/// `class` attribute whose words include an `author-<digits>` token, and
/// the name is the suffix of the last name token among those words.
pub proof fn lemma_class_rule_needs_id(body: Seq<char>)
    ensures
        class_rule_name(body) is Some ==> class_attr(body) is Some,
        class_rule_name(body) is Some ==> has_id_token(words(class_attr(body)->Some_0)),
        class_rule_name(body) is Some ==> class_rule_name(body) == last_name_suffix(
            words(class_attr(body)->Some_0),
        ),
{
}

/// Law: the body-class rule captures only well-formed names. A name it
/// yields is the nonempty suffix of an `author-` token, all of whose
/// characters are class characters, and is not purely digits.
pub proof fn lemma_class_rule_sound(body: Seq<char>)
    ensures
        class_rule_name(body) is Some ==> {
            let name = class_rule_name(body)->Some_0;
            name.len() >= 1 && all_class_chars(name) && !all_digits(name)
        },
{
    match class_attr(body) {
        Some(content) => {
            lemma_last_name_suffix_sound(words(content));
        },
        None => {},
    }
}

proof fn lemma_last_name_suffix_sound(toks: Seq<Seq<char>>)
    ensures
        last_name_suffix(toks) is Some ==> {
            let name = last_name_suffix(toks)->Some_0;
            name.len() >= 1 && all_class_chars(name) && !all_digits(name)
        },
    decreases toks.len(),
{
    if toks.len() > 0 && !name_token(toks.last()) {
        lemma_last_name_suffix_sound(toks.drop_last());
    }
}

/// The value of the first closed `class` attribute in `body`, if any.
pub fn find_class_attr(body: &str) -> (r: Option<String>)
    ensures
        r.deep_view() == class_attr(body@),
{
    let len = body.unicode_len();
    if len < 7 {
        return None;
    }
    let mut i: usize = 0;
    while i <= len - 7
        invariant
            len == body@.len(),
            7 <= len,
            i <= len - 7 + 1,
            class_attr(body@) == class_attr_from(body@, i as int),
        decreases len - i,
    {
        if class_marker_matches(body, i) {
            let run = run_len(body, i + 7, CharClass::NonQuote);
            if i + 7 + run < len {
                let content = body.substring_char(i + 7, i + 7 + run);
                let owned = String::from_str(content);
                return Some(owned);
            } else {
                assert(class_attr_from(body@, i as int) is None);
                return None;
            }
        }
        assert(class_attr_from(body@, i as int) == class_attr_from(body@, i + 1));
        i = i + 1;
    }
    assert(class_attr_from(body@, i as int) is None);
    None
}

fn class_marker_matches(s: &str, i: usize) -> (b: bool)
    requires
        i + 7 <= s@.len(),
        s@.len() <= usize::MAX,
    ensures
        b == class_marker_at(s@, i as int),
{
    s.get_char(i) == 'c' && s.get_char(i + 1) == 'l' && s.get_char(i + 2) == 'a' && s.get_char(
        i + 3,
    ) == 's' && s.get_char(i + 4) == 's' && s.get_char(i + 5) == '=' && s.get_char(i + 6) == '"'
}

/// The whitespace-separated words of `content`, in order.
pub fn split_words(content: &str) -> (r: Vec<String>)
    ensures
        r.deep_view() == words(content@),
{
    let len = content.unicode_len();
    let mut out: Vec<String> = Vec::new();
    let mut i: usize = 0;
    while i < len
        invariant
            len == content@.len(),
            i <= len,
            words(content@) =~= out.deep_view() + words_from(content@, i as int),
        decreases len - i,
    {
        let ghost prev_dv = out.deep_view();
        if space_char(content.get_char(i)) {
            assert(words_from(content@, i as int) == words_from(content@, i + 1));
            i = i + 1;
        } else {
            let run = run_len(content, i, CharClass::Word);
            assert(run > 0);
            let word = content.substring_char(i, i + run);
            let owned = String::from_str(word);
            out.push(owned);
            proof {
                assert(out.deep_view() =~= prev_dv.push(
                    content@.subrange(i as int, i + run_of(content@, i as int, CharClass::Word)),
                ));
                assert(words_from(content@, i as int) =~= seq![
                    content@.subrange(i as int, i + run_of(content@, i as int, CharClass::Word)),
                ] + words_from(content@, i + run_of(content@, i as int, CharClass::Word)));
                assert(out.deep_view() + words_from(content@, (i + run) as int) =~= prev_dv
                    + words_from(content@, i as int));
            }
            i = i + run;
        }
    }
    assert(words_from(content@, i as int) =~= Seq::<Seq<char>>::empty());
    assert(out.deep_view() =~= words(content@));
    out
}

/// Classifies one class token: is it an `author-<digits>` ID token, and is
/// it an `author-<name>` name token?
pub fn classify_token(t: &str) -> (r: (bool, bool))
    ensures
        r.0 == id_token(t@),
        r.1 == name_token(t@),
{
    let len = t.unicode_len();
    if len < 8 {
        return (false, false);
    }
    let is_author = t.get_char(0) == 'a' && t.get_char(1) == 'u' && t.get_char(2) == 't'
        && t.get_char(3) == 'h' && t.get_char(4) == 'o' && t.get_char(5) == 'r' && t.get_char(6)
        == '-';
    if !is_author {
        return (false, false);
    }
    let mut dig = true;
    let mut cls = true;
    let mut k: usize = 7;
    while k < len
        invariant
            len == t@.len(),
            7 <= k <= len,
            dig == forall|m: int| 7 <= m < k ==> is_digit_char(t@[m]),
            cls == forall|m: int| 7 <= m < k ==> is_class_char(t@[m]),
        decreases len - k,
    {
        let c = t.get_char(k);
        let cd = crate::chars::digit_char(c);
        let cc = crate::chars::class_char(c);
        dig = dig && cd;
        cls = cls && cc;
        k = k + 1;
    }
    proof {
        let suf = token_suffix(t@);
        assert(suf.len() == len - 7);
        if dig {
            assert forall|m: int| 0 <= m < suf.len() implies is_digit_char(suf[m]) by {
                assert(suf[m] == t@[m + 7]);
            }
            assert(all_digits(suf));
        } else {
            let m = choose|m: int| 7 <= m < len && !is_digit_char(t@[m]);
            assert(suf[m - 7] == t@[m]);
            assert(!all_digits(suf));
        }
        if cls {
            assert forall|m: int| 0 <= m < suf.len() implies is_class_char(suf[m]) by {
                assert(suf[m] == t@[m + 7]);
            }
            assert(all_class_chars(suf));
        } else {
            let m = choose|m: int| 7 <= m < len && !is_class_char(t@[m]);
            assert(suf[m - 7] == t@[m]);
            assert(!all_class_chars(suf));
        }
    }
    (dig, cls && !dig)
}

/// The suffix of the last name token among `tokens`, provided some token
/// is a numeric author-ID token.
pub fn pick_class_name(tokens: &Vec<String>) -> (r: Option<String>)
    ensures
        r.deep_view() == (if has_id_token(tokens.deep_view()) {
            last_name_suffix(tokens.deep_view())
        } else {
            None::<Seq<char>>
        }),
{
    let mut has_id = false;
    let mut best: Option<String> = None;
    let n = tokens.len();
    let mut k: usize = 0;
    while k < n
        invariant
            n == tokens.len(),
            k <= n,
            has_id == has_id_token(tokens.deep_view().subrange(0, k as int)),
            best.deep_view() == last_name_suffix(tokens.deep_view().subrange(0, k as int)),
        decreases n - k,
    {
        let ghost pref = tokens.deep_view().subrange(0, k as int);
        let ghost pref2 = tokens.deep_view().subrange(0, k + 1);
        let t = &tokens[k];
        let (is_id, is_name) = classify_token(t.as_str());
        proof {
            assert(pref2.last() == t@);
            assert(pref2.drop_last() =~= pref);
            if is_id {
                assert(id_token(pref2[k as int]));
                assert(has_id_token(pref2));
            } else if has_id {
                let m = choose|m: int| 0 <= m < pref.len() && id_token(pref[m]);
                assert(pref2[m] == pref[m]);
                assert(has_id_token(pref2));
            } else {
                if has_id_token(pref2) {
                    let m = choose|m: int| 0 <= m < pref2.len() && id_token(pref2[m]);
                    if m < k {
                        assert(pref[m] == pref2[m]);
                        assert(has_id_token(pref));
                    }
                    assert(false);
                }
            }
        }
        if is_id {
            has_id = true;
        }
        if is_name {
            let t_len = t.as_str().unicode_len();
            let suffix = t.as_str().substring_char(7, t_len);
            best = Some(String::from_str(suffix));
            assert(suffix@ == token_suffix(t@));
            assert(best.deep_view() == last_name_suffix(pref2));
        } else {
            assert(best.deep_view() == last_name_suffix(pref2));
        }
        k = k + 1;
    }
    assert(tokens.deep_view().subrange(0, n as int) =~= tokens.deep_view());
    if has_id {
        best
    } else {
        None
    }
}

/// The name the body-class rule yields for `body`, if any.
pub fn class_name(body: &str) -> (r: Option<String>)
    ensures
        r.deep_view() == class_rule_name(body@),
{
    match find_class_attr(body) {
        Some(content) => {
            let tokens = split_words(content.as_str());
            pick_class_name(&tokens)
        },
        None => None,
    }
}

} // verus!
