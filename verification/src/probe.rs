//! Decisions of the probe loop.
//!
//! The loop that issues the HTTP requests lives outside the library; every
//! decision it takes — whether a range is usable, whether a status is a
//! redirect, what URL to request and where a redirect leads — is computed
//! here, on plain values.

use vstd::prelude::*;

verus! {

/// A candidate ID range is usable exactly when it is not inverted.
pub fn range_is_valid(start: u32, end: u32) -> (b: bool)
    ensures
        b == (start <= end),
{
    start <= end
}

/// A status in the redirect class, 300 to 399.
pub open spec fn spec_is_redirect(status: u16) -> bool {
    300 <= status < 400
}

pub fn is_redirect_status(status: u16) -> (b: bool)
    ensures
        b == spec_is_redirect(status),
{
    300 <= status && status < 400
}

/// `s` with every trailing slash removed.
pub open spec fn spec_trim_slashes(s: Seq<char>) -> Seq<char>
    decreases s.len(),
{
    if s.len() > 0 && s.last() == '/' {
        spec_trim_slashes(s.drop_last())
    } else {
        s
    }
}

/// The base URL as the request builder uses it: trailing slashes stripped.
pub fn normalize_base(url: &str) -> (r: String)
    ensures
        r@ == spec_trim_slashes(url@),
{
    let len = url.unicode_len();
    assert(url@.subrange(0, len as int) =~= url@);
    let mut e = len;
    while e > 0 && url.get_char(e - 1) == '/'
        invariant
            e <= len,
            len == url@.len(),
            spec_trim_slashes(url@) == spec_trim_slashes(url@.subrange(0, e as int)),
        decreases e,
    {
        assert(url@.subrange(0, e as int).drop_last() =~= url@.subrange(0, e - 1));
        e = e - 1;
    }
    let kept = url.substring_char(0, e);
    assert(url@.subrange(0, e as int) == spec_trim_slashes(url@.subrange(0, e as int)));
    String::from_str(kept)
}

/// Law: trimming trailing slashes shortens the URL at most, keeps it a
/// prefix of itself, and leaves nothing slash-terminated behind.
pub proof fn lemma_trim_slashes_props(s: Seq<char>)
    ensures
        spec_trim_slashes(s).len() <= s.len(),
        spec_trim_slashes(s) =~= s.subrange(0, spec_trim_slashes(s).len() as int),
        spec_trim_slashes(s).len() > 0 ==> spec_trim_slashes(s).last() != '/',
    decreases s.len(),
{
    if s.len() > 0 && s.last() == '/' {
        lemma_trim_slashes_props(s.drop_last());
        assert(s.drop_last() =~= s.subrange(0, s.len() - 1));
        assert(spec_trim_slashes(s) =~= s.subrange(0, spec_trim_slashes(s).len() as int));
    } else {
        assert(s =~= s.subrange(0, s.len() as int));
    }
}

/// `s` begins with the literal `http`.
pub open spec fn spec_has_http_prefix(s: Seq<char>) -> bool {
    s.len() >= 4 && s[0] == 'h' && s[1] == 't' && s[2] == 't' && s[3] == 'p'
}

pub fn has_http_prefix(s: &str) -> (b: bool)
    ensures
        b == spec_has_http_prefix(s@),
{
    let len = s.unicode_len();
    len >= 4 && s.get_char(0) == 'h' && s.get_char(1) == 't' && s.get_char(2) == 't'
        && s.get_char(3) == 'p'
}

/// Where a redirect leads: a `Location` value that already carries a
/// scheme is followed as it stands, anything else is appended to the base.
pub fn resolve_redirect(base: &str, loc: &str) -> (r: String)
    ensures
        spec_has_http_prefix(loc@) ==> r@ == loc@,
        !spec_has_http_prefix(loc@) ==> r@ == base@ + loc@,
{
    if has_http_prefix(loc) {
        String::from_str(loc)
    } else {
        let mut out = String::from_str(base);
        out.append(loc);
        out
    }
}

/// Whether the probe owes a second fetch after a response, and where it
/// goes: exactly the redirect responses that carry a `Location` value are
/// followed, to the resolved redirect target.
pub fn follow_up_url(base: &str, status: u16, location: Option<&String>) -> (r: Option<String>)
    ensures
        r is Some <==> (spec_is_redirect(status) && location is Some),
        r is Some ==> {
            let l = location->Some_0@;
            &&& spec_has_http_prefix(l) ==> r->Some_0@ == l
            &&& !spec_has_http_prefix(l) ==> r->Some_0@ == base@ + l
        },
{
    if is_redirect_status(status) {
        match location {
            Some(l) => Some(resolve_redirect(base, l.as_str())),
            None => None,
        }
    } else {
        None
    }
}

/// The decimal digits of `n`, most significant first.
pub open spec fn spec_decimal(n: nat) -> Seq<char>
    decreases n,
{
    if n < 10 {
        seq![spec_digit(n)]
    } else {
        spec_decimal(n / 10).push(spec_digit(n % 10))
    }
}

/// The character of one decimal digit.
pub open spec fn spec_digit(d: nat) -> char {
    if d == 0 {
        '0'
    } else if d == 1 {
        '1'
    } else if d == 2 {
        '2'
    } else if d == 3 {
        '3'
    } else if d == 4 {
        '4'
    } else if d == 5 {
        '5'
    } else if d == 6 {
        '6'
    } else if d == 7 {
        '7'
    } else if d == 8 {
        '8'
    } else {
        '9'
    }
}

fn digit_str(d: u32) -> (r: &'static str)
    requires
        d < 10,
    ensures
        r@ =~= seq![spec_digit(d as nat)],
{
    proof {
        reveal_strlit("0");
        reveal_strlit("1");
        reveal_strlit("2");
        reveal_strlit("3");
        reveal_strlit("4");
        reveal_strlit("5");
        reveal_strlit("6");
        reveal_strlit("7");
        reveal_strlit("8");
        reveal_strlit("9");
    }
    if d == 0 {
        "0"
    } else if d == 1 {
        "1"
    } else if d == 2 {
        "2"
    } else if d == 3 {
        "3"
    } else if d == 4 {
        "4"
    } else if d == 5 {
        "5"
    } else if d == 6 {
        "6"
    } else if d == 7 {
        "7"
    } else if d == 8 {
        "8"
    } else {
        "9"
    }
}

fn append_decimal(out: &mut String, n: u32)
    ensures
        final(out)@ == old(out)@ + spec_decimal(n as nat),
    decreases n,
{
    if n < 10 {
        let d = digit_str(n);
        out.append(d);
    } else {
        append_decimal(out, n / 10);
        let d = digit_str(n % 10);
        out.append(d);
        assert(out@ =~= old(out)@ + spec_decimal(n as nat));
    }
}

/// The author query suffix, `/?author=`.
pub open spec fn spec_query_marker() -> Seq<char> {
    seq!['/', '?', 'a', 'u', 't', 'h', 'o', 'r', '=']
}

/// The URL probed for a candidate ID: `{base}/?author={id}`.
pub fn build_target(base: &str, id: u32) -> (r: String)
    ensures
        r@ == base@ + spec_query_marker() + spec_decimal(id as nat),
{
    let mut out = String::from_str(base);
    proof {
        reveal_strlit("/?author=");
    }
    out.append("/?author=");
    assert(out@ =~= base@ + spec_query_marker());
    append_decimal(&mut out, id);
    out
}

} // verus!
