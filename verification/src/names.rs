//! Sets of names, and numbers by name.
use crate::text;
use vstd::prelude::*;

verus! {

/// A set of names.
pub struct NameSet {
    names: Vec<String>,
}

impl View for NameSet {
    type V = Set<Seq<char>>;

    closed spec fn view(&self) -> Set<Seq<char>> {
        text::texts(self.names@).to_set()
    }
}

impl NameSet {
    /// The empty set.
    pub fn new() -> (r: Self)
        ensures
            r@ == Set::<Seq<char>>::empty(),
    {
        let r = NameSet { names: Vec::new() };
        assert(r@ =~= Set::<Seq<char>>::empty());
        r
    }

    /// Whether a name is in the set.
    pub fn contains(&self, name: &str) -> (r: bool)
        ensures
            r == self@.contains(name@),
    {
        let mut i: usize = 0;
        while i < self.names.len()
            invariant
                i <= self.names.len(),
                forall|j: int| 0 <= j < i ==> (#[trigger] text::texts(self.names@)[j]) != name@,
            decreases self.names.len() - i,
        {
            if text::same(self.names[i].as_str(), name) {
                assert(text::texts(self.names@)[i as int] == name@);
                return true;
            }
            i += 1;
        }
        false
    }

    /// Puts a name into the set, and says whether it was new.
    pub fn insert(&mut self, name: &str) -> (r: bool)
        ensures
            final(self)@ == old(self)@.insert(name@),
            r == !old(self)@.contains(name@),
    {
        if self.contains(name) {
            assert(self@ =~= self@.insert(name@));
            return false;
        }
        let ghost before = text::texts(self.names@);
        self.names.push(name.to_owned());
        proof {
            assert(text::texts(self.names@) == before.push(name@));
            push_inserts(before, name@);
        }
        true
    }

    /// Takes a name out of the set, and says whether it was there.
    pub fn remove(&mut self, name: &str) -> (r: bool)
        ensures
            final(self)@ == old(self)@.remove(name@),
            r == old(self)@.contains(name@),
    {
        let ghost all = text::texts(self.names@);
        let mut kept: Vec<String> = Vec::new();
        let mut found: bool = false;
        let mut i: usize = 0;
        assert(text::texts(kept@).to_set() =~= all.take(0).to_set().remove(name@));
        while i < self.names.len()
            invariant
                i <= self.names.len(),
                *self == *old(self),
                all == text::texts(self.names@),
                found == all.take(i as int).to_set().contains(name@),
                text::texts(kept@).to_set() == all.take(i as int).to_set().remove(name@),
            decreases self.names.len() - i,
        {
            let ghost before = text::texts(kept@);
            proof {
                assert(all.take(i + 1) == all.take(i as int).push(all[i as int]));
                push_inserts(all.take(i as int), all[i as int]);
            }
            if text::same(self.names[i].as_str(), name) {
                found = true;
            } else {
                kept.push(self.names[i].clone());
                proof {
                    assert(text::texts(kept@) == before.push(all[i as int]));
                    push_inserts(before, all[i as int]);
                }
            }
            assert(text::texts(kept@).to_set() =~= all.take(i + 1).to_set().remove(name@));
            i += 1;
        }
        assert(all.take(all.len() as int) == all);
        self.names = kept;
        found
    }
}

/// The map that a list of pairs stands for; a later pair replaces an earlier one.
spec fn numbers_of(v: Seq<(String, usize)>) -> Map<Seq<char>, nat>
    decreases v.len(),
{
    if v.len() == 0 {
        Map::empty()
    } else {
        numbers_of(v.drop_last()).insert(v.last().0@, v.last().1 as nat)
    }
}

/// Numbers by name.
pub struct NumberMap {
    entries: Vec<(String, usize)>,
}

impl View for NumberMap {
    type V = Map<Seq<char>, nat>;

    closed spec fn view(&self) -> Map<Seq<char>, nat> {
        numbers_of(self.entries@)
    }
}

impl NumberMap {
    /// How much there is to take out.
    pub closed spec fn size(&self) -> nat {
        self.entries@.len()
    }

    /// No names at all.
    pub fn new() -> (r: Self)
        ensures
            r@ == Map::<Seq<char>, nat>::empty(),
    {
        NumberMap { entries: Vec::new() }
    }

    /// The number of a name.
    pub fn get(&self, name: &str) -> (r: Option<usize>)
        ensures
            match r {
                Some(n) => self@.contains_key(name@) && self@[name@] == n,
                None => !self@.contains_key(name@),
            },
    {
        let mut i: usize = self.entries.len();
        assert(self.entries@.take(i as int) == self.entries@);
        while i > 0
            invariant
                i <= self.entries.len(),
                numbers_of(self.entries@.take(i as int)).contains_key(name@) == self@.contains_key(
                    name@,
                ),
                self@.contains_key(name@) ==> numbers_of(self.entries@.take(i as int))[name@]
                    == self@[name@],
            decreases i,
        {
            assert(self.entries@.take(i as int).drop_last() == self.entries@.take(i - 1));
            if text::same(self.entries[i - 1].0.as_str(), name) {
                return Some(self.entries[i - 1].1);
            }
            i -= 1;
        }
        None
    }

    /// Whether some name has this number.
    pub fn has_number(&self, n: usize) -> (r: bool)
        ensures
            r == self@.contains_value(n as nat),
    {
        let mut i: usize = 0;
        while i < self.entries.len()
            invariant
                i <= self.entries.len(),
                forall|j: int|
                    0 <= j < i ==> !(self@.contains_key((#[trigger] self.entries@[j]).0@)
                        && self@[self.entries@[j].0@] == n),
            decreases self.entries.len() - i,
        {
            if let Some(m) = self.get(self.entries[i].0.as_str()) {
                if m == n {
                    assert(self@.contains_key(self.entries@[i as int].0@));
                    assert(self@.dom().contains(self.entries@[i as int].0@));
                    return true;
                }
            }
            i += 1;
        }
        proof {
            if self@.contains_value(n as nat) {
                let name = choose|name: Seq<char>| self@.contains_key(name) && self@[name] == n;
                let j = names_are_listed(self.entries@, name);
                assert(self.entries@[j].0@ == name);
            }
        }
        false
    }

    /// Gives a name a number.
    pub fn insert(&mut self, name: &str, n: usize)
        ensures
            final(self)@ == old(self)@.insert(name@, n as nat),
    {
        self.entries.push((name.to_owned(), n));
        assert(self.entries@.drop_last() == old(self).entries@);
    }

    /// Takes a name out, and returns its number if it had one.
    pub fn remove(&mut self, name: &str) -> (r: Option<usize>)
        ensures
            final(self)@ == old(self)@.remove(name@),
            match r {
                Some(n) => old(self)@.contains_key(name@) && old(self)@[name@] == n,
                None => !old(self)@.contains_key(name@),
            },
            final(self).size() <= old(self).size(),
            r is Some ==> final(self).size() < old(self).size(),
    {
        let found: Option<usize> = self.get(name);
        let ghost all = self.entries@;
        let mut kept: Vec<(String, usize)> = Vec::new();
        let mut i: usize = 0;
        assert(numbers_of(kept@) =~= numbers_of(all.take(0)).remove(name@));
        while i < self.entries.len()
            invariant
                i <= self.entries.len(),
                *self == *old(self),
                all == self.entries@,
                kept@.len() <= i,
                kept@.len() == i ==> !numbers_of(all.take(i as int)).contains_key(name@),
                numbers_of(kept@) == numbers_of(all.take(i as int)).remove(name@),
            decreases self.entries.len() - i,
        {
            assert(all.take(i + 1).drop_last() == all.take(i as int));
            if !text::same(self.entries[i].0.as_str(), name) {
                let ghost before = kept@;
                let entry = (self.entries[i].0.clone(), self.entries[i].1);
                kept.push(entry);
                assert(kept@.drop_last() == before);
            }
            assert(numbers_of(kept@) =~= numbers_of(all.take(i + 1)).remove(name@));
            i += 1;
        }
        assert(all.take(all.len() as int) == all);
        self.entries = kept;
        found
    }

    /// Takes any name out, and returns it with its number; `None` where there is none.
    pub fn pop(&mut self) -> (r: Option<(String, usize)>)
        ensures
            match r {
                Some((name, n)) => {
                    &&& old(self)@.contains_key(name@)
                    &&& old(self)@[name@] == n
                    &&& final(self)@ == old(self)@.remove(name@)
                    &&& final(self).size() < old(self).size()
                },
                None => {
                    &&& old(self)@ == Map::<Seq<char>, nat>::empty()
                    &&& final(self)@ == old(self)@
                },
            },
    {
        let len: usize = self.entries.len();
        if len == 0 {
            return None;
        }
        let name = self.entries[len - 1].0.clone();
        match self.remove(name.as_str()) {
            Some(n) => Some((name, n)),
            None => None,
        }
    }
}

proof fn names_are_listed(v: Seq<(String, usize)>, name: Seq<char>) -> (i: int)
    requires
        numbers_of(v).contains_key(name),
    ensures
        0 <= i < v.len(),
        v[i].0@ == name,
    decreases v.len(),
{
    if v.last().0@ == name {
        v.len() - 1
    } else {
        names_are_listed(v.drop_last(), name)
    }
}

proof fn push_inserts(s: Seq<Seq<char>>, x: Seq<char>)
    ensures
        s.push(x).to_set() == s.to_set().insert(x),
{
    assert forall|y: Seq<char>| s.push(x).to_set().contains(y) == s.to_set().insert(x).contains(
        y,
    ) by {
        if s.contains(y) {
            let i = choose|i: int| 0 <= i < s.len() && s[i] == y;
            assert(s.push(x)[i] == y);
        }
        if s.push(x).contains(y) && y != x {
            let i = choose|i: int| 0 <= i < s.push(x).len() && s.push(x)[i] == y;
            assert(s[i] == y);
        }
        assert(s.push(x)[s.len() as int] == x);
    }
    assert(s.push(x).to_set() =~= s.to_set().insert(x));
}

} // verus!
