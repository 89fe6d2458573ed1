//! The accumulator of discovered usernames.
//!
//! One set of distinct strings lives for a whole run: every rule on every
//! payload merges into it, nothing is ever removed, and re-discovering a
//! name that is already present changes nothing.

use vstd::prelude::*;

verus! {

/// A set of distinct usernames, kept in discovery order.
pub struct UserSet {
    names: Vec<String>,
}

impl View for UserSet {
    type V = Seq<Seq<char>>;

    closed spec fn view(&self) -> Seq<Seq<char>> {
        self.names.deep_view()
    }
}

impl UserSet {
    /// No name occurs twice.
    pub open spec fn distinct(&self) -> bool {
        forall|i: int, j: int| 0 <= i < j < self@.len() ==> self@[i] != self@[j]
    }

    /// The names as a mathematical set.
    pub open spec fn as_set(&self) -> Set<Seq<char>> {
        self@.to_set()
    }

    pub fn new() -> (r: Self)
        ensures
            r@ =~= Seq::<Seq<char>>::empty(),
            r.distinct(),
    {
        UserSet { names: Vec::new() }
    }

    pub fn len(&self) -> (n: usize)
        ensures
            n == self@.len(),
    {
        self.names.len()
    }

    pub fn contains_name(&self, name: &str) -> (b: bool)
        ensures
            b == self@.contains(name@),
    {
        let n = self.names.len();
        let mut k: usize = 0;
        while k < n
            invariant
                n == self.names.len(),
                k <= n,
                forall|m: int| 0 <= m < k ==> self@[m] != name@,
            decreases n - k,
        {
            if string_eq(&self.names[k], name) {
                assert(self@[k as int] == name@);
                return true;
            }
            k = k + 1;
        }
        assert(forall|m: int| 0 <= m < self@.len() ==> self@[m] != name@);
        false
    }

    /// Adds `name` unless an equal name is already present.
    pub fn insert(&mut self, name: String)
        requires
            old(self).distinct(),
        ensures
            final(self).distinct(),
            old(self)@.contains(name@) ==> final(self)@ == old(self)@,
            !old(self)@.contains(name@) ==> final(self)@ =~= old(self)@.push(name@),
            final(self).as_set() =~= old(self).as_set().insert(name@),
    {
        let present = self.contains_name(name.as_str());
        if !present {
            let ghost prev = self@;
            self.names.push(name);
            assert(self@ =~= prev.push(name@));
        }
        proof {
            lemma_to_set_insert(old(self)@, self@, name@);
        }
    }

    /// The accumulated names, surrendered for output.
    pub fn into_names(self) -> (r: Vec<String>)
        ensures
            r.deep_view() == self@,
    {
        self.names
    }

    /// Reads the name at position `i`.
    pub fn get(&self, i: usize) -> (r: &String)
        requires
            i < self@.len(),
        ensures
            r@ == self@[i as int],
    {
        &self.names[i]
    }
}

fn string_eq(a: &String, b: &str) -> (r: bool)
    ensures
        r == (a@ == b@),
{
    let bs = String::from_str(b);
    a.eq(&bs)
}

proof fn lemma_to_set_insert(prev: Seq<Seq<char>>, cur: Seq<Seq<char>>, name: Seq<char>)
    requires
        prev.contains(name) ==> cur == prev,
        !prev.contains(name) ==> cur == prev.push(name),
    ensures
        cur.to_set() =~= prev.to_set().insert(name),
{
    if prev.contains(name) {
        assert forall|x: Seq<char>| prev.to_set().insert(name).contains(x) implies
            cur.to_set().contains(x) by {
            if x == name {
                assert(prev.contains(x));
            }
        }
    } else {
        assert forall|x: Seq<char>| cur.to_set().contains(x) implies prev.to_set().insert(
            name,
        ).contains(x) by {
            let m = choose|m: int| 0 <= m < cur.len() && cur[m] == x;
            if m < prev.len() {
                assert(prev[m] == x);
            }
        }
        assert forall|x: Seq<char>| prev.to_set().insert(name).contains(x) implies
            cur.to_set().contains(x) by {
            if x == name {
                assert(cur[prev.len() as int] == x);
            } else {
                let m = choose|m: int| 0 <= m < prev.len() && prev[m] == x;
                assert(cur[m] == x);
            }
        }
    }
}

} // verus!
