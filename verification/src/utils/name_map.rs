//! A map from names to values that remembers the order in which the names came.

use crate::utils::text;
use crate::utils::text::chars_of;
use vstd::prelude::*;

verus! {

/// Values by name. Each name occurs once; replacing a value keeps the name's place. The places of
/// the names are found again by a number that each name has.
#[derive(Debug, Clone)]
pub struct NameMap<V> {
    names: Vec<String>,
    values: Vec<V>,
    buckets: Vec<Vec<usize>>,
}

/// How many numbers names can have.
const BUCKETS: usize = 4096;

/// The number of a name: its characters as digits, as far as there are numbers.
spec fn bucket(name: Seq<char>) -> nat
    decreases name.len(),
{
    if name.len() == 0 {
        0
    } else {
        (bucket(name.drop_last()) * 31 + name.last() as u32 as nat) % (BUCKETS as nat)
    }
}

fn bucket_of(name: &str) -> (r: usize)
    ensures
        r == bucket(name@),
        r < BUCKETS,
{
    let chars = chars_of(name);
    let mut r: usize = 0;
    let mut i: usize = 0;
    assert(chars@.take(0) =~= Seq::<char>::empty());
    while i < chars.len()
        invariant
            i <= chars@.len(),
            r == bucket(chars@.take(i as int)),
            r < BUCKETS,
        decreases chars@.len() - i,
    {
        let c: char = chars[i];
        proof {
            vstd::utf8::char_is_scalar(c);
            assert(chars@.take(i + 1).drop_last() =~= chars@.take(i as int));
            assert(chars@.take(i + 1).last() == c);
        }
        r = (r * 31 + c as u32 as usize) % BUCKETS;
        i = i + 1;
    }
    assert(chars@.take(i as int) =~= name@);
    r
}

impl<V> View for NameMap<V> {
    type V = Map<Seq<char>, V>;

    closed spec fn view(&self) -> Map<Seq<char>, V> {
        Map::new(
            |k: Seq<char>| self.order().contains(k),
            |k: Seq<char>| self.values@[self.order().index_of(k)],
        )
    }
}

impl<V> NameMap<V> {
    /// The names in the order in which they were first inserted.
    pub closed spec fn order(&self) -> Seq<Seq<char>> {
        text::texts(self.names@)
    }

    /// Every name has one place, and the place is found again by the name's number.
    pub closed spec fn wf(&self) -> bool {
        &&& self.names@.len() == self.values@.len()
        &&& self.order().no_duplicates()
        &&& self.buckets@.len() == BUCKETS
        &&& forall|i: int|
            0 <= i < self.names@.len() ==> self.buckets@[bucket(
                (#[trigger] self.names@[i])@,
            ) as int]@.contains(i as usize)
        &&& forall|b: int, k: int|
            0 <= b < BUCKETS && 0 <= k < self.buckets@[b]@.len() ==> #[trigger] self.buckets@[b]@[k]
                < self.names@.len()
    }

    /// The names in order are those of the map, each once.
    pub proof fn lemma_order(&self)
        requires
            self.wf(),
        ensures
            self.order().no_duplicates(),
            forall|k: Seq<char>| self.order().contains(k) <==> #[trigger] self@.contains_key(k),
    {
    }

    /// Makes an empty map.
    pub fn new() -> (r: Self)
        ensures
            r.wf(),
            r@ == Map::<Seq<char>, V>::empty(),
            r.order() == Seq::<Seq<char>>::empty(),
    {
        let mut buckets: Vec<Vec<usize>> = Vec::new();
        let mut b: usize = 0;
        while b < BUCKETS
            invariant
                b <= BUCKETS,
                buckets@.len() == b,
                forall|k: int| 0 <= k < b ==> (#[trigger] buckets@[k])@.len() == 0,
            decreases BUCKETS - b,
        {
            buckets.push(Vec::new());
            b = b + 1;
        }
        let r = NameMap { names: Vec::new(), values: Vec::new(), buckets };
        assert(r@ =~= Map::<Seq<char>, V>::empty());
        assert(r.order() =~= Seq::<Seq<char>>::empty());
        r
    }

    /// How many names the map holds.
    pub fn len(&self) -> (r: usize)
        ensures
            r == self.order().len(),
    {
        self.names.len()
    }

    /// The name at a place.
    pub fn name_at(&self, i: usize) -> (r: &String)
        requires
            i < self.order().len(),
        ensures
            r@ == self.order()[i as int],
    {
        &self.names[i]
    }

    fn place_of(&self, name: &str) -> (r: Option<usize>)
        requires
            self.wf(),
        ensures
            match r {
                Some(i) => {
                    &&& i < self.names@.len()
                    &&& self.names@[i as int]@ == name@
                    &&& self.order().contains(name@)
                    &&& self.order().index_of(name@) == i
                },
                None => !self.order().contains(name@),
            },
    {
        let b: usize = bucket_of(name);
        let key = name.to_owned();
        let n: usize = self.names.len();
        let mut k: usize = 0;
        while k < self.buckets[b].len()
            invariant
                self.wf(),
                b < BUCKETS,
                key@ == name@,
                k <= self.buckets@[b as int]@.len(),
                forall|j: int|
                    0 <= j < k ==> self.names@[#[trigger] self.buckets@[b as int]@[j] as int]@
                        != name@,
            decreases self.buckets@[b as int]@.len() - k,
        {
            let i: usize = self.buckets[b][k];
            if self.names[i] == key {
                proof {
                    assert(self.order()[i as int] == name@);
                    let j = self.order().index_of(name@);
                    assert(self.order()[j] == name@);
                }
                return Some(i);
            }
            k = k + 1;
        }
        proof {
            if self.order().contains(name@) {
                let i = self.order().index_of(name@);
                assert(i < n);
                assert(self.names@[i]@ == name@);
                let places = self.buckets@[b as int]@;
                let j = choose|j: int| 0 <= j < places.len() && places[j] == i as usize;
                assert(self.names@[places[j] as int]@ == name@);
            }
        }
        None
    }

    /// Whether the map holds a name.
    pub fn contains_key(&self, name: &str) -> (r: bool)
        requires
            self.wf(),
        ensures
            r == self@.contains_key(name@),
    {
        self.place_of(name).is_some()
    }

    /// The value under a name.
    pub fn get(&self, name: &str) -> (r: Option<&V>)
        requires
            self.wf(),
        ensures
            match r {
                Some(v) => self@.contains_key(name@) && *v == self@[name@],
                None => !self@.contains_key(name@),
            },
    {
        match self.place_of(name) {
            Some(i) => Some(&self.values[i]),
            None => None,
        }
    }

    /// The value under a name, to change.
    pub fn get_mut(&mut self, name: &str) -> (r: Option<&mut V>)
        requires
            old(self).wf(),
        ensures
            final(self).wf(),
            final(self).order() == old(self).order(),
            match r {
                Some(v) => {
                    &&& old(self)@.contains_key(name@)
                    &&& *v == old(self)@[name@]
                    &&& final(self)@ == old(self)@.insert(name@, *final(v))
                },
                None => !old(self)@.contains_key(name@) && *final(self) == *old(self),
            },
    {
        match self.place_of(name) {
            Some(i) => {
                proof {
                    let ghost order = self.order();
                    assert forall|k: Seq<char>|
                        order.contains(k) && k != name@ implies order.index_of(k) != i by {
                        assert(order[order.index_of(k)] == k);
                    }
                }
                Some(&mut self.values[i])
            },
            None => None,
        }
    }

    /// Puts a value under a name; a value that was there is replaced.
    pub fn insert(&mut self, name: String, value: V)
        requires
            old(self).wf(),
        ensures
            final(self).wf(),
            final(self)@ == old(self)@.insert(name@, value),
            final(self).order() == (if old(self)@.contains_key(name@) {
                old(self).order()
            } else {
                old(self).order().push(name@)
            }),
    {
        match self.place_of(name.as_str()) {
            Some(i) => {
                self.values.set(i, value);
                proof {
                    let order = self.order();
                    assert(order == old(self).order());
                    assert forall|k: Seq<char>|
                        order.contains(k) && k != name@ implies order.index_of(k) != i by {
                        assert(order[order.index_of(k)] == k);
                    }
                    assert(self@ =~= old(self)@.insert(name@, value));
                }
            },
            None => {
                let ghost before = self.order();
                let i: usize = self.names.len();
                let b: usize = bucket_of(name.as_str());
                let ghost key = name@;
                self.buckets[b].push(i);
                self.names.push(name);
                self.values.push(value);
                proof {
                    let order = self.order();
                    assert(order =~= before.push(key));
                    lemma_push_place(before, key);
                    assert forall|j: int| 0 <= j < self.names@.len() implies self.buckets@[bucket(
                        (#[trigger] self.names@[j])@,
                    ) as int]@.contains(j as usize) by {
                        let at = bucket(self.names@[j]@) as int;
                        if j < before.len() {
                            let was = old(self).buckets@[at]@;
                            assert(old(self).names@[j] == self.names@[j]);
                            assert(was.contains(j as usize));
                            let k = choose|k: int| 0 <= k < was.len() && was[k] == j as usize;
                            assert(self.buckets@[at]@[k] == j as usize);
                        } else {
                            let now = self.buckets@[at]@;
                            assert(now[now.len() - 1] == j as usize);
                        }
                    }
                    assert forall|c: int, k: int|
                        0 <= c < BUCKETS && 0 <= k < self.buckets@[c]@.len() implies #[trigger]
                    self.buckets@[c]@[k] < self.names@.len() by {
                        if c != b || k < old(self).buckets@[c]@.len() {
                            assert(self.buckets@[c]@[k] == old(self).buckets@[c]@[k]);
                        }
                    }
                    assert(self@ =~= old(self)@.insert(key, value));
                }
            },
        }
    }
}

/// A name that is put behind others is found there, and the others are found where they were.
proof fn lemma_push_place(order: Seq<Seq<char>>, name: Seq<char>)
    requires
        order.no_duplicates(),
        !order.contains(name),
    ensures
        order.push(name).no_duplicates(),
        order.push(name).contains(name),
        order.push(name).index_of(name) == order.len(),
        forall|k: Seq<char>|
            order.contains(k) ==> #[trigger] order.push(name).contains(k) && order.push(
                name,
            ).index_of(k) == order.index_of(k),
        forall|k: Seq<char>| #[trigger]
            order.push(name).contains(k) ==> k == name || order.contains(k),
{
    let all = order.push(name);
    assert(all[order.len() as int] == name);
    assert forall|i: int, j: int| 0 <= i < all.len() && 0 <= j < all.len() && i != j implies all[i]
        != all[j] by {
        if i == order.len() {
            assert(order.contains(order[j]));
        } else if j == order.len() {
            assert(order.contains(order[i]));
        }
    }
    assert(all[all.index_of(name)] == name);
    assert forall|k: Seq<char>| order.contains(k) implies #[trigger] all.contains(k)
        && all.index_of(k) == order.index_of(k) by {
        let i = order.index_of(k);
        assert(order[i] == k);
        assert(all[i] == k);
        assert(all[all.index_of(k)] == k);
    }
    assert forall|k: Seq<char>| #[trigger] all.contains(k) implies k == name || order.contains(
        k,
    ) by {
        let i = all.index_of(k);
        assert(all[i] == k);
        if i < order.len() {
            assert(order[i] == k);
        }
    }
}

} // verus!
