//! Utility structures for miscellaneous tasks.
use vstd::prelude::*;

verus! {

/// Counts how many times each key has been added to it.
pub struct Counter {
    items: Vec<(String, usize)>,
}

/// The first position holding the key, or -1 when the key is absent.
pub open spec fn find_key_from(s: Seq<(Seq<char>, int)>, k: Seq<char>, i: int) -> int
    decreases s.len() - i,
{
    if i < 0 || i >= s.len() {
        -1
    } else if s[i].0 == k {
        i
    } else {
        find_key_from(s, k, i + 1)
    }
}

/// A count after one more sighting, capped at its largest value.
pub open spec fn tick_count(c: int) -> int {
    if c >= usize::MAX {
        c
    } else {
        c + 1
    }
}

/// The counter after adding one key: its count grows by one, or a new
/// entry with count one appears at the end.
pub open spec fn counter_add(s: Seq<(Seq<char>, int)>, k: Seq<char>) -> Seq<(Seq<char>, int)> {
    let i = find_key_from(s, k, 0);
    if i >= 0 {
        s.update(i, (s[i].0, tick_count(s[i].1)))
    } else {
        s.push((k, 1))
    }
}

/// The count recorded for a key, zero when the key is absent.
pub open spec fn counter_get(s: Seq<(Seq<char>, int)>, k: Seq<char>) -> int {
    let i = find_key_from(s, k, 0);
    if i >= 0 {
        s[i].1
    } else {
        0
    }
}

impl View for Counter {
    type V = Seq<(Seq<char>, int)>;

    closed spec fn view(&self) -> Seq<(Seq<char>, int)> {
        self.items@.map_values(|p: (String, usize)| (p.0@, p.1 as int))
    }
}

impl Counter {
    /// Creates a new empty counter.
    pub fn new() -> (r: Counter)
        ensures
            r@ == Seq::<(Seq<char>, int)>::empty(),
    {
        let r = Counter { items: Vec::new() };
        proof {
            assert(r@ =~= Seq::<(Seq<char>, int)>::empty());
        }
        r
    }

    /// Finds the position of a key, if it was added before.
    fn position(&self, key: &String) -> (r: Option<usize>)
        ensures
            match r {
                Some(i) => i < self@.len() && find_key_from(self@, key@, 0) == i as int,
                None => find_key_from(self@, key@, 0) == -1,
            },
    {
        let mut i: usize = 0;
        while i < self.items.len()
            invariant
                i <= self.items@.len(),
                self@.len() == self.items@.len(),
                forall|j: int| 0 <= j < self@.len() ==> #[trigger] self@[j].0 == self.items@[j].0@,
                find_key_from(self@, key@, 0) == find_key_from(self@, key@, i as int),
            decreases self.items@.len() - i,
        {
            if self.items[i].0 == *key {
                return Some(i);
            }
            i += 1;
        }
        None
    }

    /// Adds an element to the counter, incrementing the count if it was
    /// seen before and setting the count to 1 if it hasn't.
    pub fn add(&mut self, key: String)
        ensures
            final(self)@ == counter_add(old(self)@, key@),
    {
        match self.position(&key) {
            Some(i) => {
                let count = self.items[i].1;
                let bumped = if count < usize::MAX {
                    count + 1
                } else {
                    count
                };
                let k = self.items[i].0.clone();
                self.items[i] = (k, bumped);
                proof {
                    assert(self@ =~= counter_add(old(self)@, key@));
                }
            },
            None => {
                self.items.push((key, 1));
                proof {
                    assert(self@ =~= counter_add(old(self)@, key@));
                }
            },
        }
    }

    /// Creates a counter from a list, counting each of its elements.
    pub fn from(collection: Vec<String>) -> (r: Counter)
        ensures
            r@ == counter_add_all(Seq::<(Seq<char>, int)>::empty(), collection@.map_values(|s: String| s@)),
    {
        let ghost keys = collection@.map_values(|s: String| s@);
        let mut counter = Counter::new();
        let mut i: usize = 0;
        while i < collection.len()
            invariant
                i <= collection@.len(),
                keys == collection@.map_values(|s: String| s@),
                counter@ == counter_add_all(Seq::<(Seq<char>, int)>::empty(), keys.take(i as int)),
            decreases collection@.len() - i,
        {
            let item = collection[i].clone();
            counter.add(item);
            proof {
                assert(keys.take(i + 1).drop_last() =~= keys.take(i as int));
                assert(keys.take(i + 1).last() == keys[i as int]);
            }
            i += 1;
        }
        proof {
            assert(keys.take(keys.len() as int) =~= keys);
        }
        counter
    }

    /// Returns the counts recorded by the counter, in insertion order.
    pub fn counts(&self) -> (r: Vec<usize>)
        ensures
            r@.len() == self@.len(),
            forall|i: int| 0 <= i < r@.len() ==> #[trigger] r@[i] as int == self@[i].1,
    {
        let mut r: Vec<usize> = Vec::new();
        let mut i: usize = 0;
        while i < self.items.len()
            invariant
                i <= self.items@.len(),
                self@.len() == self.items@.len(),
                forall|j: int| 0 <= j < self@.len() ==> #[trigger] self@[j].1 == self.items@[j].1 as int,
                r@.len() == i,
                forall|j: int| 0 <= j < i ==> #[trigger] r@[j] as int == self@[j].1,
            decreases self.items@.len() - i,
        {
            r.push(self.items[i].1);
            i += 1;
        }
        r
    }

    /// Returns the count of the provided key, or 0 if the element was not
    /// seen yet.
    pub fn get(&self, key: &String) -> (r: usize)
        ensures
            r as int == counter_get(self@, key@),
    {
        match self.position(key) {
            Some(i) => {
                proof {
                    assert(self@[i as int].1 == self.items@[i as int].1 as int);
                }
                self.items[i].1
            },
            None => 0,
        }
    }
}

/// The counter after adding each key of a list in turn.
pub open spec fn counter_add_all(s: Seq<(Seq<char>, int)>, keys: Seq<Seq<char>>) -> Seq<
    (Seq<char>, int),
>
    decreases keys.len(),
{
    if keys.len() == 0 {
        s
    } else {
        counter_add(counter_add_all(s, keys.drop_last()), keys.last())
    }
}

} // verus!
