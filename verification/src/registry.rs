//! A set of node addresses, kept as a list without repeats in the order the
//! addresses were first added.

use vstd::prelude::*;

use crate::text::{json_string, push_char, push_json_string, same_text};

verus! {

/// The addresses of `s` other than `x`, in their order.
pub open spec fn without(s: Seq<Seq<char>>, x: Seq<char>) -> Seq<Seq<char>>
    decreases s.len(),
{
    if s.len() == 0 {
        s
    } else if s.last() == x {
        without(s.drop_last(), x)
    } else {
        without(s.drop_last(), x).push(s.last())
    }
}

/// The JSON list of a sequence of texts.
pub open spec fn texts_json(s: Seq<Seq<char>>) -> Seq<char> {
    seq!['['] + texts_json_items(s) + seq![']']
}

/// The JSON strings of a sequence of texts, separated by commas.
pub open spec fn texts_json_items(s: Seq<Seq<char>>) -> Seq<char>
    decreases s.len(),
{
    if s.len() == 0 {
        seq![]
    } else if s.len() == 1 {
        json_string(s[0])
    } else {
        texts_json_items(s.drop_last()) + seq![','] + json_string(s.last())
    }
}

/// `s` with `x` added at the end, unless it is there already.
pub open spec fn with(s: Seq<Seq<char>>, x: Seq<char>) -> Seq<Seq<char>> {
    if s.contains(x) {
        s
    } else {
        s.push(x)
    }
}

/// `s` with each of `xs` added in turn.
pub open spec fn with_all(s: Seq<Seq<char>>, xs: Seq<Seq<char>>) -> Seq<Seq<char>>
    decreases xs.len(),
{
    if xs.len() == 0 {
        s
    } else {
        with(with_all(s, xs.drop_last()), xs.last())
    }
}

/// `s` with each of `xs` left out.
pub open spec fn without_all(s: Seq<Seq<char>>, xs: Seq<Seq<char>>) -> Seq<Seq<char>>
    decreases xs.len(),
{
    if xs.len() == 0 {
        s
    } else {
        without(without_all(s, xs.drop_last()), xs.last())
    }
}

/// A set of addresses.
pub struct AddressSet {
    entries: Vec<String>,
}

impl View for AddressSet {
    type V = Seq<Seq<char>>;

    /// The addresses in the order they were first added.
    closed spec fn view(&self) -> Seq<Seq<char>> {
        self.entries@.map_values(|e: String| e@)
    }
}

impl AddressSet {
    #[verifier::type_invariant]
    spec fn no_repeats(&self) -> bool {
        self@.no_duplicates()
    }

    /// An empty set.
    pub fn new() -> (set: Self)
        ensures
            set@ == Seq::<Seq<char>>::empty(),
    {
        let set = AddressSet { entries: Vec::new() };
        assert(set@ =~= Seq::<Seq<char>>::empty());
        set
    }

    /// The number of addresses.
    pub fn len(&self) -> (n: usize)
        ensures
            n == self@.len(),
    {
        self.entries.len()
    }

    /// The address at position `i`.
    pub fn get(&self, i: usize) -> (address: &String)
        requires
            i < self@.len(),
        ensures
            address@ == self@[i as int],
    {
        &self.entries[i]
    }

    /// Where `address` stands, if it is in the set.
    pub fn position(&self, address: &str) -> (found: Option<usize>)
        ensures
            match found {
                Some(i) => i < self@.len() && self@[i as int] == address@,
                None => !self@.contains(address@),
            },
    {
        let n = self.entries.len();
        let mut i: usize = 0;
        while i < n
            invariant
                n == self@.len(),
                n == self.entries@.len(),
                i <= n,
                self@ == self.entries@.map_values(|e: String| e@),
                forall|j: int| 0 <= j < i ==> self@[j] != address@,
            decreases n - i,
        {
            if same_text(self.entries[i].as_str(), address) {
                return Some(i);
            }
            i = i + 1;
        }
        None
    }

    /// Whether `address` is in the set.
    pub fn contains(&self, address: &str) -> (found: bool)
        ensures
            found == self@.contains(address@),
    {
        self.position(address).is_some()
    }

    /// Adds `address` at the end, unless it is already in the set.
    pub fn insert(&mut self, address: String) -> (added: bool)
        ensures
            added == !old(self)@.contains(address@),
            final(self)@ == if added { old(self)@.push(address@) } else { old(self)@ },
    {
        proof {
            use_type_invariant(&*self);
        }
        if self.contains(address.as_str()) {
            false
        } else {
            let ghost before = self@;
            let mut entries: Vec<String> = Vec::new();
            std::mem::swap(&mut entries, &mut self.entries);
            entries.push(address);
            assert(entries@.map_values(|e: String| e@) =~= before.push(address@));
            proof {
                let now = entries@.map_values(|e: String| e@);
                assert forall|i: int, j: int|
                    0 <= i < now.len() && 0 <= j < now.len() && i != j implies now[i]
                    != now[j] by {
                    if i < before.len() && j < before.len() {
                        assert(before[i] != before[j]);
                    } else if i == before.len() {
                        assert(before[j] == now[j]);
                    } else {
                        assert(before[i] == now[i]);
                    }
                }
            }
            self.entries = entries;
            true
        }
    }

    /// Removes `address`, if it is in the set; the others keep their order.
    pub fn remove(&mut self, address: &str) -> (removed: bool)
        ensures
            removed == old(self)@.contains(address@),
            final(self)@ == without(old(self)@, address@),
    {
        proof {
            use_type_invariant(&*self);
        }
        let ghost before = self@;
        match self.position(address) {
            None => {
                proof {
                    lemma_without_absent(before, address@);
                }
                false
            },
            Some(i) => {
                let mut entries: Vec<String> = Vec::new();
                std::mem::swap(&mut entries, &mut self.entries);
                let _gone = entries.remove(i);
                proof {
                    let now = entries@.map_values(|e: String| e@);
                    assert(now =~= before.remove(i as int));
                    lemma_without_at(before, i as int, address@);
                    assert(now.no_duplicates()) by {
                        assert forall|a: int, b: int|
                            0 <= a < now.len() && 0 <= b < now.len() && a != b implies now[a]
                            != now[b] by {
                            let a2 = if a < i { a } else { a + 1 };
                            let b2 = if b < i { b } else { b + 1 };
                            assert(now[a] == before[a2]);
                            assert(now[b] == before[b2]);
                        }
                    }
                }
                self.entries = entries;
                true
            },
        }
    }

    /// Adds each of `addresses` in turn, skipping those already in the set.
    pub fn insert_all(&mut self, addresses: Vec<String>)
        ensures
            final(self)@ == with_all(old(self)@, addresses@.map_values(|a: String| a@)),
    {
        let ghost given = addresses@.map_values(|a: String| a@);
        let n = addresses.len();
        let mut i: usize = 0;
        while i < n
            invariant
                n == addresses@.len(),
                i <= n,
                given == addresses@.map_values(|a: String| a@),
                self@ == with_all(old(self)@, given.take(i as int)),
            decreases n - i,
        {
            let address = addresses[i].clone();
            self.insert(address);
            proof {
                let t = given.take(i as int + 1);
                assert(t.drop_last() =~= given.take(i as int));
                assert(t.last() == given[i as int]);
            }
            i = i + 1;
        }
        assert(given.take(n as int) =~= given);
    }

    /// Removes each of `addresses` that is in the set; the others keep their order.
    pub fn remove_all(&mut self, addresses: &Vec<String>)
        ensures
            final(self)@ == without_all(old(self)@, addresses@.map_values(|a: String| a@)),
    {
        let ghost given = addresses@.map_values(|a: String| a@);
        let n = addresses.len();
        let mut i: usize = 0;
        while i < n
            invariant
                n == addresses@.len(),
                i <= n,
                given == addresses@.map_values(|a: String| a@),
                self@ == without_all(old(self)@, given.take(i as int)),
            decreases n - i,
        {
            self.remove(addresses[i].as_str());
            proof {
                let t = given.take(i as int + 1);
                assert(t.drop_last() =~= given.take(i as int));
                assert(t.last() == given[i as int]);
            }
            i = i + 1;
        }
        assert(given.take(n as int) =~= given);
    }

    /// The addresses, in their order.
    pub fn entries(&self) -> (addresses: Vec<String>)
        ensures
            addresses@.map_values(|a: String| a@) == self@,
    {
        let addresses = self.entries.clone();
        assert(addresses@ =~= self.entries@);
        addresses
    }

    /// The JSON list of the addresses, in their order.
    pub fn to_json(&self) -> (json: String)
        ensures
            json@ == texts_json(self@),
    {
        let mut out = String::new();
        push_char(&mut out, '[');
        let n = self.entries.len();
        let mut i: usize = 0;
        while i < n
            invariant
                n == self@.len(),
                n == self.entries@.len(),
                i <= n,
                self@ == self.entries@.map_values(|e: String| e@),
                out@ == seq!['['] + texts_json_items(self@.take(i as int)),
            decreases n - i,
        {
            if i > 0 {
                push_char(&mut out, ',');
            }
            push_json_string(&mut out, self.entries[i].as_str());
            proof {
                let t = self@.take(i as int + 1);
                assert(t.drop_last() =~= self@.take(i as int));
                assert(t.last() == self.entries@[i as int]@);
                assert(out@ =~= seq!['['] + texts_json_items(t));
            }
            i = i + 1;
        }
        assert(self@.take(n as int) =~= self@);
        push_char(&mut out, ']');
        out
    }
}

/// Leaving out an address that is not there changes nothing.
pub proof fn lemma_without_absent(s: Seq<Seq<char>>, x: Seq<char>)
    requires
        !s.contains(x),
    ensures
        without(s, x) == s,
    decreases s.len(),
{
    if s.len() > 0 {
        assert(!s.drop_last().contains(x)) by {
            if s.drop_last().contains(x) {
                let k = choose|k: int| 0 <= k < s.drop_last().len() && s.drop_last()[k] == x;
                assert(s[k] == x);
            }
        }
        lemma_without_absent(s.drop_last(), x);
        assert(s.last() != x) by {
            assert(s[s.len() - 1] == s.last());
        }
        assert(s.drop_last().push(s.last()) =~= s);
    }
}

/// In a list without repeats, leaving out the address at `i` removes just that position.
pub proof fn lemma_without_at(s: Seq<Seq<char>>, i: int, x: Seq<char>)
    requires
        s.no_duplicates(),
        0 <= i < s.len(),
        s[i] == x,
    ensures
        without(s, x) == s.remove(i),
    decreases s.len(),
{
    if i == s.len() - 1 {
        assert(!s.drop_last().contains(x)) by {
            if s.drop_last().contains(x) {
                let k = choose|k: int| 0 <= k < s.drop_last().len() && s.drop_last()[k] == x;
                assert(s[k] == s[i]);
            }
        }
        lemma_without_absent(s.drop_last(), x);
        assert(s.remove(i) =~= s.drop_last());
    } else {
        let d = s.drop_last();
        assert(d.no_duplicates()) by {
            assert forall|a: int, b: int| 0 <= a < d.len() && 0 <= b < d.len() && a != b implies d[a]
                != d[b] by {
                assert(d[a] == s[a] && d[b] == s[b]);
            }
        }
        lemma_without_at(d, i, x);
        assert(s.last() != x) by {
            assert(s[s.len() - 1] != s[i]);
        }
        assert(s.remove(i) =~= d.remove(i).push(s.last()));
    }
}

/// Adding an address twice is adding it once.
pub proof fn lemma_with_idempotent(s: Seq<Seq<char>>, x: Seq<char>)
    ensures
        with(with(s, x), x) == with(s, x),
        with(s, x).contains(x),
{
    if !s.contains(x) {
        assert(s.push(x)[s.len() as int] == x);
    }
}

/// An address left out is not in the result.
pub proof fn lemma_without_removes(s: Seq<Seq<char>>, x: Seq<char>)
    ensures
        !without(s, x).contains(x),
    decreases s.len(),
{
    if s.len() > 0 {
        lemma_without_removes(s.drop_last(), x);
        let w = without(s.drop_last(), x);
        if s.last() != x {
            assert forall|k: int| 0 <= k < w.push(s.last()).len() implies w.push(s.last())[k] != x by {
                if k < w.len() {
                    assert(w.push(s.last())[k] == w[k]);
                }
            }
        }
    }
}

/// Removing an address undoes adding it, when it was not there before.
pub proof fn lemma_remove_undoes_insert(s: Seq<Seq<char>>, x: Seq<char>)
    requires
        !s.contains(x),
    ensures
        without(with(s, x), x) == s,
{
    assert(s.push(x).drop_last() =~= s);
    lemma_without_absent(s, x);
}

} // verus!
