//! Turning payloads into usernames.
//!
//! A payload is the part of an HTTP response that extraction looks at:
//! the status, the `Location` header value if one was present, and the
//! body text if one was fetched and decoded. Three independent rules
//! contribute names — the redirect rule on the `Location` value, the
//! hyperlink rule and the body-class rule on the body — and everything
//! found is merged into one deduplicated accumulator.

use vstd::prelude::*;

use crate::classes::{class_name, class_rule_name};
use crate::scan::{link_names, loc_name};
use crate::userset::UserSet;

verus! {

/// The extraction-relevant part of one HTTP response.
pub struct Payload {
    /// The response status code.
    pub status: u16,
    /// The `Location` header value, where the response carried one.
    pub location: Option<String>,
    /// The decoded body text, where one was fetched.
    pub body: Option<String>,
}

/// The contribution of an optional single name.
pub open spec fn opt_name_set(o: Option<Seq<char>>) -> Set<Seq<char>> {
    match o {
        Some(n) => Set::empty().insert(n),
        None => Set::empty(),
    }
}

/// All names the two body rules discover in a body.
pub open spec fn body_names(b: Seq<char>) -> Set<Seq<char>> {
    link_names(b).to_set().union(opt_name_set(class_rule_name(b)))
}

/// All names a payload yields, over all three rules.
pub open spec fn payload_names(p: Payload) -> Set<Seq<char>> {
    (match p.location {
        Some(l) => opt_name_set(loc_name(l@)),
        None => Set::empty(),
    }).union(
        match p.body {
            Some(b) => body_names(b@),
            None => Set::empty(),
        },
    )
}

/// All names a run over a sequence of payloads accumulates.
pub open spec fn batch_names(ps: Seq<Payload>) -> Set<Seq<char>>
    decreases ps.len(),
{
    if ps.len() == 0 {
        Set::empty()
    } else {
        batch_names(ps.drop_last()).union(payload_names(ps.last()))
    }
}

/// Merges into `users` every name the two body rules find in `html`.
pub fn extract_from_html(html: &str, users: &mut UserSet)
    requires
        old(users).distinct(),
    ensures
        final(users).distinct(),
        final(users).as_set() =~= old(users).as_set().union(body_names(html@)),
        old(users)@.is_prefix_of(final(users)@),
{
    let ghost entry = users.as_set();
    match class_name(html) {
        Some(n) => {
            users.insert(n);
        },
        None => {},
    }
    assert(users.as_set() =~= entry.union(opt_name_set(class_rule_name(html@))));
    let ghost mid = users.as_set();
    let names = crate::scan::find_link_names(html);
    let n = names.len();
    let mut k: usize = 0;
    while k < n
        invariant
            n == names.len(),
            k <= n,
            names.deep_view() == link_names(html@),
            users.distinct(),
            users.as_set() =~= mid.union(names.deep_view().subrange(0, k as int).to_set()),
            old(users)@.is_prefix_of(users@),
        decreases n - k,
    {
        let name = clone_string(&names[k]);
        users.insert(name);
        proof {
            lemma_subrange_to_set_step(names.deep_view(), k as int);
        }
        k = k + 1;
    }
    proof {
        assert(names.deep_view().subrange(0, n as int) =~= names.deep_view());
        assert(users.as_set() =~= entry.union(body_names(html@)));
    }
}

/// Merges into `users` every name `p` yields under the three rules.
pub fn extract_from_payload(p: &Payload, users: &mut UserSet)
    requires
        old(users).distinct(),
    ensures
        final(users).distinct(),
        final(users).as_set() =~= old(users).as_set().union(payload_names(*p)),
        old(users)@.is_prefix_of(final(users)@),
{
    let ghost entry = users.as_set();
    match &p.location {
        Some(l) => {
            match crate::scan::location_name(l.as_str()) {
                Some(n) => {
                    users.insert(n);
                },
                None => {},
            }
        },
        None => {},
    }
    assert(users.as_set() =~= entry.union(
        match p.location {
            Some(l) => opt_name_set(loc_name(l@)),
            None => Set::<Seq<char>>::empty(),
        },
    ));
    match &p.body {
        Some(b) => {
            extract_from_html(b.as_str(), users);
        },
        None => {},
    }
    assert(users.as_set() =~= entry.union(payload_names(*p)));
}

/// Merges into `users` the names of every payload in `payloads`, in order.
pub fn run_extraction(payloads: &Vec<Payload>, users: &mut UserSet)
    requires
        old(users).distinct(),
    ensures
        final(users).distinct(),
        final(users).as_set() =~= old(users).as_set().union(batch_names(payloads@)),
        old(users)@.is_prefix_of(final(users)@),
{
    let n = payloads.len();
    let mut k: usize = 0;
    while k < n
        invariant
            n == payloads.len(),
            k <= n,
            users.distinct(),
            users.as_set() =~= old(users).as_set().union(batch_names(payloads@.subrange(0, k as int))),
            old(users)@.is_prefix_of(users@),
        decreases n - k,
    {
        extract_from_payload(&payloads[k], users);
        proof {
            lemma_batch_step(payloads@, k as int);
        }
        k = k + 1;
    }
    assert(payloads@.subrange(0, n as int) =~= payloads@);
}

/// Law: extraction is idempotent. Merging the names of the same payloads
/// a second time, starting from what the first pass accumulated, leaves
/// the accumulated set exactly as it was.
pub proof fn lemma_extraction_idempotent(start: Set<Seq<char>>, ps: Seq<Payload>)
    ensures
        start.union(batch_names(ps)).union(batch_names(ps)) =~= start.union(batch_names(ps)),
{
}

/// Law: what a run accumulates does not depend on the order of the
/// payloads: a payload's names are in the batch wherever it stands.
pub proof fn lemma_batch_contains_payload(ps: Seq<Payload>, k: int)
    requires
        0 <= k < ps.len(),
    ensures
        payload_names(ps[k]).subset_of(batch_names(ps)),
    decreases ps.len(),
{
    if k == ps.len() - 1 {
        assert(ps.last() == ps[k]);
    } else {
        lemma_batch_contains_payload(ps.drop_last(), k);
        assert(ps.drop_last()[k] == ps[k]);
    }
}

fn clone_string(s: &String) -> (r: String)
    ensures
        r@ == s@,
{
    s.clone()
}

proof fn lemma_subrange_to_set_step(s: Seq<Seq<char>>, k: int)
    requires
        0 <= k < s.len(),
    ensures
        s.subrange(0, k + 1).to_set() =~= s.subrange(0, k).to_set().insert(s[k]),
{
    let a = s.subrange(0, k);
    let b = s.subrange(0, k + 1);
    assert forall|x: Seq<char>| b.to_set().contains(x) implies a.to_set().insert(s[k]).contains(
        x,
    ) by {
        let m = choose|m: int| 0 <= m < b.len() && b[m] == x;
        if m < k {
            assert(a[m] == x);
        }
    }
    assert forall|x: Seq<char>| a.to_set().insert(s[k]).contains(x) implies b.to_set().contains(
        x,
    ) by {
        if x == s[k] {
            assert(b[k] == x);
        } else {
            let m = choose|m: int| 0 <= m < a.len() && a[m] == x;
            assert(b[m] == x);
        }
    }
}

proof fn lemma_batch_step(ps: Seq<Payload>, k: int)
    requires
        0 <= k < ps.len(),
    ensures
        batch_names(ps.subrange(0, k + 1)) =~= batch_names(ps.subrange(0, k)).union(
            payload_names(ps[k]),
        ),
{
    let b = ps.subrange(0, k + 1);
    assert(b.drop_last() =~= ps.subrange(0, k));
    assert(b.last() == ps[k]);
}

} // verus!
