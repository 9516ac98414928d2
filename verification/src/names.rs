//! A map from names to values that is listed in the order of its names.
use vstd::prelude::*;
use vstd::string::*;

use crate::text;

verus! {

/// The order of names: character by character, a prefix before what it
/// starts.
pub open spec fn precedes(a: Seq<char>, b: Seq<char>) -> bool
    decreases a.len(),
{
    if b.len() == 0 {
        false
    } else if a.len() == 0 {
        true
    } else if a[0] != b[0] {
        (a[0] as u32) < (b[0] as u32)
    } else {
        precedes(a.drop_first(), b.drop_first())
    }
}

/// Whether the names of a listing ascend strictly, so that none occurs twice.
pub open spec fn ascending<V>(listing: Seq<(Seq<char>, V)>) -> bool {
    forall|i: int, j: int| 0 <= i < j < listing.len() ==> precedes(listing[i].0, listing[j].0)
}

/// The map that a listing stands for.
pub open spec fn map_of<V>(listing: Seq<(Seq<char>, V)>) -> Map<Seq<char>, V>
    decreases listing.len(),
{
    if listing.len() == 0 {
        Map::empty()
    } else {
        map_of(listing.drop_last()).insert(listing.last().0, listing.last().1)
    }
}

/// The ascending listing of a map.
pub open spec fn listing_of<V>(m: Map<Seq<char>, V>) -> Seq<(Seq<char>, V)> {
    choose|listing: Seq<(Seq<char>, V)>| ascending(listing) && #[trigger] map_of(listing) == m
}

/// Whether `new` is the listing `old` with `value` under `name`: in the place
/// of what stood there, or as an entry more.
pub open spec fn placed<V>(
    old: Seq<(Seq<char>, V)>,
    new: Seq<(Seq<char>, V)>,
    at: int,
    name: Seq<char>,
    value: V,
) -> bool {
    ||| 0 <= at < old.len() && old[at].0 == name && new == old.update(at, (name, value))
    ||| 0 <= at <= old.len() && !map_of(old).dom().contains(name) && new == old.insert(
        at,
        (name, value),
    )
}

pub proof fn lemma_precedes_irreflexive(a: Seq<char>)
    ensures
        !precedes(a, a),
    decreases a.len(),
{
    if a.len() > 0 {
        lemma_precedes_irreflexive(a.drop_first());
    }
}

pub proof fn lemma_precedes_transitive(a: Seq<char>, b: Seq<char>, c: Seq<char>)
    requires
        precedes(a, b),
        precedes(b, c),
    ensures
        precedes(a, c),
    decreases a.len(),
{
    if a.len() > 0 && a[0] == b[0] && b[0] == c[0] {
        lemma_precedes_transitive(a.drop_first(), b.drop_first(), c.drop_first());
    }
}

/// How one name stands to another.
enum Order {
    Before,
    Same,
    After,
}

/// How `a` stands to `b` in the order of names.
fn order(a: &Vec<char>, b: &Vec<char>) -> (r: Order)
    ensures
        r is Before <==> precedes(a@, b@),
        r is After <==> precedes(b@, a@),
        r is Same <==> a@ == b@,
{
    let mut i: usize = 0;
    assert(a@.skip(0) =~= a@);
    assert(b@.skip(0) =~= b@);
    while i < a.len() && i < b.len()
        invariant
            i <= a@.len(),
            i <= b@.len(),
            a@.take(i as int) == b@.take(i as int),
            precedes(a@, b@) == precedes(a@.skip(i as int), b@.skip(i as int)),
            precedes(b@, a@) == precedes(b@.skip(i as int), a@.skip(i as int)),
        decreases a@.len() - i,
    {
        assert(a@.skip(i as int)[0] == a@[i as int]);
        assert(b@.skip(i as int)[0] == b@[i as int]);
        let x: char = a[i];
        let y: char = b[i];
        if x != y {
            assert(a@ != b@);
            proof {
                vstd::utf8::char_u32_cast(x, x as u32);
                vstd::utf8::char_u32_cast(y, y as u32);
            }
            if (x as u32) < (y as u32) {
                return Order::Before;
            } else {
                return Order::After;
            }
        }
        assert(a@.skip(i as int).drop_first() =~= a@.skip(i + 1));
        assert(b@.skip(i as int).drop_first() =~= b@.skip(i + 1));
        assert(a@.take(i + 1) =~= a@.take(i as int).push(a@[i as int]));
        assert(b@.take(i + 1) =~= b@.take(i as int).push(b@[i as int]));
        i = i + 1;
    }
    assert(a@.skip(i as int).len() == a@.len() - i);
    assert(b@.skip(i as int).len() == b@.len() - i);
    if i < b.len() {
        Order::Before
    } else if i < a.len() {
        Order::After
    } else {
        assert(a@.take(i as int) =~= a@);
        assert(b@.take(i as int) =~= b@);
        proof {
            lemma_precedes_irreflexive(a@);
        }
        Order::Same
    }
}

/// A listing names exactly the keys of its map.
pub proof fn lemma_map_of_names<T>(listing: Seq<(Seq<char>, T)>, name: Seq<char>)
    ensures
        map_of(listing).dom().contains(name) <==> exists|i: int|
            0 <= i < listing.len() && (#[trigger] listing[i]).0 == name,
    decreases listing.len(),
{
    if listing.len() > 0 {
        let front = listing.drop_last();
        lemma_map_of_names(front, name);
        if map_of(listing).dom().contains(name) {
            if listing.last().0 == name {
                assert(listing[listing.len() - 1].0 == name);
            } else {
                let i = choose|i: int| 0 <= i < front.len() && (#[trigger] front[i]).0 == name;
                assert(listing[i].0 == name);
            }
        }
        if exists|i: int| 0 <= i < listing.len() && (#[trigger] listing[i]).0 == name {
            let i = choose|i: int| 0 <= i < listing.len() && (#[trigger] listing[i]).0 == name;
            if i < front.len() {
                assert(front[i].0 == name);
            }
        }
    }
}

/// In an ascending listing each entry gives the value of its name.
pub proof fn lemma_map_of_entry<T>(listing: Seq<(Seq<char>, T)>, i: int)
    requires
        ascending(listing),
        0 <= i < listing.len(),
    ensures
        map_of(listing).dom().contains(listing[i].0),
        map_of(listing)[listing[i].0] == listing[i].1,
    decreases listing.len(),
{
    lemma_map_of_names(listing, listing[i].0);
    if i < listing.len() - 1 {
        lemma_map_of_entry(listing.drop_last(), i);
        lemma_precedes_irreflexive(listing[i].0);
        assert(precedes(listing[i].0, listing.last().0));
    }
}

/// A map has one ascending listing.
pub proof fn lemma_listing_is_unique<T>(a: Seq<(Seq<char>, T)>, b: Seq<(Seq<char>, T)>)
    requires
        ascending(a),
        ascending(b),
        map_of(a) == map_of(b),
    ensures
        a == b,
    decreases a.len(),
{
    if a.len() == 0 && b.len() > 0 {
        lemma_map_of_entry(b, b.len() - 1);
    }
    if a.len() > 0 && b.len() == 0 {
        lemma_map_of_entry(a, a.len() - 1);
    }
    if a.len() > 0 && b.len() > 0 {
        let x = a.last().0;
        let y = b.last().0;
        lemma_map_of_entry(a, a.len() - 1);
        lemma_map_of_entry(b, b.len() - 1);
        lemma_map_of_names(a, y);
        lemma_map_of_names(b, x);
        let i = choose|i: int| 0 <= i < a.len() && (#[trigger] a[i]).0 == y;
        let j = choose|j: int| 0 <= j < b.len() && (#[trigger] b[j]).0 == x;
        if x != y {
            assert(precedes(a[i].0, a[a.len() - 1].0));
            assert(precedes(b[j].0, b[b.len() - 1].0));
            lemma_precedes_transitive(x, y, x);
            lemma_precedes_irreflexive(x);
        }
        lemma_map_of_front(a);
        lemma_map_of_front(b);
        lemma_listing_is_unique(a.drop_last(), b.drop_last());
        assert(a =~= a.drop_last().push(a.last()));
        assert(b =~= b.drop_last().push(b.last()));
    } else {
        assert(a =~= b);
    }
}

/// An ascending listing without its last entry stands for the map without
/// that name.
proof fn lemma_map_of_front<T>(listing: Seq<(Seq<char>, T)>)
    requires
        ascending(listing),
        listing.len() > 0,
    ensures
        map_of(listing.drop_last()) == map_of(listing).remove(listing.last().0),
{
    let front = listing.drop_last();
    let name = listing.last().0;
    lemma_map_of_names(front, name);
    if map_of(front).dom().contains(name) {
        let i = choose|i: int| 0 <= i < front.len() && (#[trigger] front[i]).0 == name;
        assert(precedes(listing[i].0, listing[listing.len() - 1].0));
        lemma_precedes_irreflexive(name);
    }
    assert(map_of(front) =~= map_of(listing).remove(name));
}

/// An ascending listing is the one that its map has.
pub proof fn lemma_listing_of<T>(listing: Seq<(Seq<char>, T)>)
    requires
        ascending(listing),
    ensures
        listing_of(map_of(listing)) == listing,
{
    lemma_listing_is_unique(listing_of(map_of(listing)), listing);
}

/// Two ascending listings of which one is the other with `value` under `name`
/// stand for maps of which one is the other with `value` under `name`.
proof fn lemma_placed<T>(
    old: Seq<(Seq<char>, T)>,
    new: Seq<(Seq<char>, T)>,
    at: int,
    name: Seq<char>,
    value: T,
)
    requires
        ascending(old),
        ascending(new),
        placed(old, new, at, name, value),
    ensures
        map_of(new) == map_of(old).insert(name, value),
{
    let inserted = new.len() > old.len();
    let changed = map_of(old).insert(name, value);
    assert(new[at] == (name, value));
    lemma_map_of_entry(new, at);
    assert forall|key: Seq<char>| map_of(new).dom().contains(key) <==> changed.dom().contains(
        key,
    ) by {
        lemma_map_of_names(old, key);
        lemma_map_of_names(new, key);
        if map_of(new).dom().contains(key) && key != name {
            let j = choose|j: int| 0 <= j < new.len() && (#[trigger] new[j]).0 == key;
            let k = if inserted && j > at {
                j - 1
            } else {
                j
            };
            assert(old[k] == new[j]);
        }
        if map_of(old).dom().contains(key) && key != name {
            let k = choose|k: int| 0 <= k < old.len() && (#[trigger] old[k]).0 == key;
            let j = if inserted && k >= at {
                k + 1
            } else {
                k
            };
            assert(new[j] == old[k]);
        }
    }
    assert forall|key: Seq<char>| map_of(new).dom().contains(key) implies map_of(new)[key]
        == changed[key] by {
        lemma_map_of_names(new, key);
        let j = choose|j: int| 0 <= j < new.len() && (#[trigger] new[j]).0 == key;
        lemma_map_of_entry(new, j);
        if key != name {
            let k = if inserted && j > at {
                j - 1
            } else {
                j
            };
            assert(old[k] == new[j]);
            lemma_map_of_entry(old, k);
        }
    }
    assert(map_of(new) =~= changed);
}

/// A map from names to values, listed in ascending order of the names.
pub struct NameMap<T> {
    entries: Vec<(String, T)>,
}

impl<T> View for NameMap<T> {
    type V = Map<Seq<char>, T>;

    open spec fn view(&self) -> Map<Seq<char>, T> {
        map_of(self.listing())
    }
}

impl<T> NameMap<T> {
    /// The entries in ascending order of their names.
    pub closed spec fn listing(&self) -> Seq<(Seq<char>, T)> {
        self.entries@.map_values(|e: (String, T)| (e.0@, e.1))
    }

    #[verifier::type_invariant]
    spec fn in_order(self) -> bool {
        ascending(self.listing())
    }

    /// The empty map.
    pub fn new() -> (r: NameMap<T>)
        ensures
            r.listing() == Seq::<(Seq<char>, T)>::empty(),
            r@ == Map::<Seq<char>, T>::empty(),
    {
        let r = NameMap { entries: Vec::new() };
        assert(r.listing() =~= Seq::empty());
        r
    }

    /// Whether the map has no entry.
    pub fn is_empty(&self) -> (r: bool)
        ensures
            r == (self.listing().len() == 0),
            r == (self@ == Map::<Seq<char>, T>::empty()),
    {
        proof {
            use_type_invariant(self);
            if self.listing().len() > 0 {
                lemma_map_of_entry(self.listing(), 0);
            }
        }
        self.entries.len() == 0
    }

    /// The entries in ascending order of their names.
    pub fn entries(&self) -> (r: &Vec<(String, T)>)
        ensures
            r@.len() == self.listing().len(),
            forall|i: int|
                0 <= i < r@.len() ==> (#[trigger] r@[i]).0@ == self.listing()[i].0 && r@[i].1
                    == self.listing()[i].1,
            ascending(self.listing()),
            self@ == map_of(self.listing()),
    {
        proof {
            use_type_invariant(self);
        }
        &self.entries
    }

    /// The position of `name`, or the position at which it would stand.
    fn position(&self, name: &str) -> (r: Result<usize, usize>)
        ensures
            match r {
                Ok(i) => i < self.listing().len() && self.listing()[i as int].0 == name@,
                Err(i) => {
                    &&& i <= self.listing().len()
                    &&& forall|j: int|
                        0 <= j < i ==> precedes((#[trigger] self.listing()[j]).0, name@)
                    &&& forall|j: int|
                        i <= j < self.listing().len() ==> precedes(
                            name@,
                            (#[trigger] self.listing()[j]).0,
                        )
                },
            },
    {
        proof {
            use_type_invariant(self);
        }
        let wanted = text::chars_of(name);
        let mut i: usize = 0;
        while i < self.entries.len()
            invariant
                wanted@ == name@,
                i <= self.entries@.len(),
                self.listing().len() == self.entries@.len(),
                ascending(self.listing()),
                forall|j: int| 0 <= j < i ==> precedes((#[trigger] self.listing()[j]).0, name@),
            decreases self.entries@.len() - i,
        {
            let held = text::chars_of(self.entries[i].0.as_str());
            assert(held@ == self.listing()[i as int].0);
            match order(&wanted, &held) {
                Order::Same => {
                    return Ok(i);
                },
                Order::Before => {
                    assert forall|j: int| i <= j < self.listing().len() implies precedes(
                        name@,
                        (#[trigger] self.listing()[j]).0,
                    ) by {
                        if i < j {
                            lemma_precedes_transitive(
                                name@,
                                self.listing()[i as int].0,
                                self.listing()[j].0,
                            );
                        }
                    }
                    return Err(i);
                },
                Order::After => {},
            }
            i = i + 1;
        }
        Err(i)
    }

    /// The value of `name`.
    pub fn get(&self, name: &str) -> (r: Option<&T>)
        ensures
            match r {
                Some(v) => self@.dom().contains(name@) && *v == self@[name@],
                None => !self@.dom().contains(name@),
            },
    {
        proof {
            use_type_invariant(self);
        }
        match self.position(name) {
            Ok(i) => {
                proof {
                    lemma_map_of_entry(self.listing(), i as int);
                }
                Some(&self.entries[i].1)
            },
            Err(_) => {
                proof {
                    lemma_map_of_names(self.listing(), name@);
                    lemma_precedes_irreflexive(name@);
                }
                None
            },
        }
    }

    /// Puts `value` under `name`, in the place of what stood there.
    pub fn insert(&mut self, name: String, value: T)
        ensures
            final(self)@ == old(self)@.insert(name@, value),
            ascending(old(self).listing()),
            ascending(final(self).listing()),
            exists|at: int|
                #[trigger] placed(
                    old(self).listing(),
                    final(self).listing(),
                    at,
                    name@,
                    value,
                ),
    {
        proof {
            use_type_invariant(&*self);
        }
        let ghost before = self.listing();
        let found = self.position(name.as_str());
        let mut entries: Vec<(String, T)> = Vec::new();
        std::mem::swap(&mut entries, &mut self.entries);
        let ghost kept = entries@;
        let ghost at: int;
        match found {
            Ok(i) => {
                let ghost entry = (name@, value);
                proof {
                    at = i as int;
                }
                entries.set(i, (name, value));
                proof {
                    let after = entries@.map_values(|e: (String, T)| (e.0@, e.1));
                    assert(after =~= before.update(at, entry));
                    assert(ascending(after));
                }
            },
            Err(i) => {
                let ghost entry = (name@, value);
                proof {
                    at = i as int;
                    lemma_map_of_names(before, name@);
                    lemma_precedes_irreflexive(name@);
                }
                entries.insert(i, (name, value));
                proof {
                    let after = entries@.map_values(|e: (String, T)| (e.0@, e.1));
                    assert(after =~= before.insert(at, entry));
                    assert(ascending(after));
                }
            },
        }
        self.entries = entries;
        proof {
            assert(placed(before, self.listing(), at, name@, value));
            lemma_placed(before, self.listing(), at, name@, value);
        }
    }
}

/// Names are ordered by the first character in which they differ, and a name
/// stands before every longer name that it starts.
pub proof fn law_order_of_names(
    common: Seq<char>,
    x: char,
    more_x: Seq<char>,
    y: char,
    more_y: Seq<char>,
)
    ensures
        x as u32 != y as u32 ==> (precedes(common + seq![x] + more_x, common + seq![y] + more_y)
            <==> (x as u32) < (y as u32)),
        precedes(common, common + seq![x] + more_x),
        !precedes(common + seq![x] + more_x, common),
        !precedes(common, common),
    decreases common.len(),
{
    let a = common + seq![x] + more_x;
    let b = common + seq![y] + more_y;
    lemma_precedes_irreflexive(common);
    if common.len() > 0 {
        let rest = common.drop_first();
        law_order_of_names(rest, x, more_x, y, more_y);
        assert(a.drop_first() =~= rest + seq![x] + more_x);
        assert(b.drop_first() =~= rest + seq![y] + more_y);
    }
}

/// A listing stands for the map of its entries; a later entry counts.
pub proof fn law_map_of_a_listing<V>(listing: Seq<(Seq<char>, V)>, name: Seq<char>, value: V)
    ensures
        map_of(listing.push((name, value))) == map_of(listing).insert(name, value),
        map_of(Seq::<(Seq<char>, V)>::empty()) == Map::<Seq<char>, V>::empty(),
{
    assert(listing.push((name, value)).drop_last() =~= listing);
}

} // verus!
