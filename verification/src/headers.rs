//! Header collections: a mapping from header name to value that keeps its
//! entries in order of name, so that it serializes the same way every time.

use crate::text::{lemma_text_lt_is_strict_total_order, str_eq, str_lt, text_lt};
use vstd::prelude::*;
use vstd::std_specs::convert::FromSpecImpl;
use vstd::string::*;

verus! {

/// Whether the names of `entries` strictly ascend. No name then occurs twice.
pub open spec fn names_ascend(entries: Seq<(Seq<char>, Seq<char>)>) -> bool {
    forall|i: int, j: int|
        0 <= i < j < entries.len() ==> text_lt(#[trigger] entries[i].0, #[trigger] entries[j].0)
}

/// Whether some entry of `entries` is named `name`.
pub open spec fn has_name(entries: Seq<(Seq<char>, Seq<char>)>, name: Seq<char>) -> bool {
    exists|i: int| 0 <= i < entries.len() && #[trigger] entries[i].0 == name
}

/// The mapping from name to value that `entries` spells out.
pub open spec fn mapping_of(entries: Seq<(Seq<char>, Seq<char>)>) -> Map<Seq<char>, Seq<char>> {
    Map::new(
        |name: Seq<char>| has_name(entries, name),
        |name: Seq<char>|
            entries[choose|i: int| 0 <= i < entries.len() && #[trigger] entries[i].0 == name].1,
    )
}

/// In ascending entries, a name leads to the value that stands beside it.
pub proof fn lemma_mapping_at(entries: Seq<(Seq<char>, Seq<char>)>, i: int)
    requires
        names_ascend(entries),
        0 <= i < entries.len(),
    ensures
        mapping_of(entries).contains_key(entries[i].0),
        mapping_of(entries)[entries[i].0] == entries[i].1,
{
    lemma_text_lt_is_strict_total_order();
    let name = entries[i].0;
    let j = choose|j: int| 0 <= j < entries.len() && #[trigger] entries[j].0 == name;
    if j < i {
        assert(text_lt(entries[j].0, entries[i].0));
    } else if i < j {
        assert(text_lt(entries[i].0, entries[j].0));
    }
}

/// Putting a new name at its place in ascending entries adds it to the
/// mapping and keeps the names ascending.
pub proof fn lemma_insert_entry(
    entries: Seq<(Seq<char>, Seq<char>)>,
    at: int,
    name: Seq<char>,
    value: Seq<char>,
)
    requires
        names_ascend(entries),
        0 <= at <= entries.len(),
        forall|k: int| 0 <= k < at ==> text_lt(#[trigger] entries[k].0, name),
        forall|k: int| at <= k < entries.len() ==> text_lt(name, #[trigger] entries[k].0),
    ensures
        names_ascend(entries.insert(at, (name, value))),
        mapping_of(entries.insert(at, (name, value))) == mapping_of(entries).insert(name, value),
{
    lemma_text_lt_is_strict_total_order();
    let after = entries.insert(at, (name, value));
    assert(names_ascend(after)) by {
        assert forall|i: int, j: int| 0 <= i < j < after.len() implies text_lt(
            #[trigger] after[i].0,
            #[trigger] after[j].0,
        ) by {
            let a = if i < at { i } else { i - 1 };
            let b = if j < at { j } else { j - 1 };
            if i != at && j != at {
                assert(text_lt(entries[a].0, entries[b].0));
            } else if i == at {
                assert(text_lt(name, entries[b].0));
            } else {
                assert(text_lt(entries[a].0, name));
            }
        }
    }
    let left = mapping_of(after);
    let right = mapping_of(entries).insert(name, value);
    assert forall|key: Seq<char>| left.contains_key(key) <==> right.contains_key(key) by {
        if left.contains_key(key) {
            let i = choose|i: int| 0 <= i < after.len() && #[trigger] after[i].0 == key;
            if i < at {
                assert(entries[i].0 == key);
            } else if i > at {
                assert(entries[i - 1].0 == key);
            }
        }
        if right.contains_key(key) && key != name {
            let j = choose|j: int| 0 <= j < entries.len() && #[trigger] entries[j].0 == key;
            if j < at {
                assert(after[j].0 == key);
            } else {
                assert(after[j + 1].0 == key);
            }
        }
        if key == name {
            assert(after[at].0 == key);
        }
    }
    assert forall|key: Seq<char>| left.contains_key(key) implies left[key] == right[key] by {
        let i = choose|i: int| 0 <= i < after.len() && #[trigger] after[i].0 == key;
        lemma_mapping_at(after, i);
        if i < at {
            lemma_mapping_at(entries, i);
        } else if i > at {
            lemma_mapping_at(entries, i - 1);
        }
    }
    assert(left =~= right);
}

/// Giving an entry of ascending entries a new value changes the mapping at
/// its name only.
pub proof fn lemma_replace_value(
    entries: Seq<(Seq<char>, Seq<char>)>,
    at: int,
    value: Seq<char>,
)
    requires
        names_ascend(entries),
        0 <= at < entries.len(),
    ensures
        names_ascend(entries.update(at, (entries[at].0, value))),
        mapping_of(entries.update(at, (entries[at].0, value))) == mapping_of(entries).insert(
            entries[at].0,
            value,
        ),
{
    let name = entries[at].0;
    let after = entries.update(at, (name, value));
    assert(names_ascend(after)) by {
        assert forall|i: int, j: int| 0 <= i < j < after.len() implies text_lt(
            #[trigger] after[i].0,
            #[trigger] after[j].0,
        ) by {
            assert(text_lt(entries[i].0, entries[j].0));
        }
    }
    let left = mapping_of(after);
    let right = mapping_of(entries).insert(name, value);
    assert forall|key: Seq<char>| left.contains_key(key) <==> right.contains_key(key) by {
        if left.contains_key(key) {
            let i = choose|i: int| 0 <= i < after.len() && #[trigger] after[i].0 == key;
            assert(entries[i].0 == key);
        }
        if right.contains_key(key) && key != name {
            let j = choose|j: int| 0 <= j < entries.len() && #[trigger] entries[j].0 == key;
            assert(after[j].0 == key);
        }
        if key == name {
            assert(after[at].0 == key);
        }
    }
    assert forall|key: Seq<char>| left.contains_key(key) implies left[key] == right[key] by {
        let i = choose|i: int| 0 <= i < after.len() && #[trigger] after[i].0 == key;
        lemma_mapping_at(after, i);
        lemma_mapping_at(entries, i);
        assert(entries[i].0 == key);
        if i != at {
            lemma_text_lt_is_strict_total_order();
            if i < at {
                assert(text_lt(entries[i].0, entries[at].0));
            } else {
                assert(text_lt(entries[at].0, entries[i].0));
            }
            assert(key != name);
        }
    }
    assert(left =~= right);
}

/// Dropping the first of ascending entries removes its name from the
/// mapping and changes nothing else.
pub proof fn lemma_mapping_of_tail(entries: Seq<(Seq<char>, Seq<char>)>)
    requires
        names_ascend(entries),
        entries.len() > 0,
    ensures
        names_ascend(entries.drop_first()),
        mapping_of(entries.drop_first()) == mapping_of(entries).remove(entries[0].0),
{
    lemma_text_lt_is_strict_total_order();
    let tail = entries.drop_first();
    let name = entries[0].0;
    assert(names_ascend(tail)) by {
        assert forall|i: int, j: int| 0 <= i < j < tail.len() implies text_lt(
            #[trigger] tail[i].0,
            #[trigger] tail[j].0,
        ) by {
            assert(text_lt(entries[i + 1].0, entries[j + 1].0));
        }
    }
    assert forall|k: int| 0 <= k < tail.len() implies text_lt(name, #[trigger] tail[k].0) by {
        assert(text_lt(entries[0].0, entries[k + 1].0));
    }
    lemma_insert_entry(tail, 0, name, entries[0].1);
    assert(tail.insert(0, (name, entries[0].1)) =~= entries);
    if has_name(tail, name) {
        let k = choose|k: int| 0 <= k < tail.len() && #[trigger] tail[k].0 == name;
        assert(text_lt(name, tail[k].0));
    }
    assert(mapping_of(tail) =~= mapping_of(entries).remove(name));
}

/// Ascending entries are determined by their mapping.
pub proof fn lemma_ascending_entries_are_unique(
    a: Seq<(Seq<char>, Seq<char>)>,
    b: Seq<(Seq<char>, Seq<char>)>,
)
    requires
        names_ascend(a),
        names_ascend(b),
        mapping_of(a) == mapping_of(b),
    ensures
        a == b,
    decreases a.len(),
{
    lemma_text_lt_is_strict_total_order();
    if a.len() == 0 {
        if b.len() > 0 {
            lemma_mapping_at(b, 0);
            assert(has_name(a, b[0].0));
        }
        assert(a =~= b);
    } else if b.len() == 0 {
        lemma_mapping_at(a, 0);
        assert(has_name(b, a[0].0));
    } else {
        lemma_mapping_at(a, 0);
        lemma_mapping_at(b, 0);
        assert(has_name(b, a[0].0));
        assert(has_name(a, b[0].0));
        let j = choose|j: int| 0 <= j < b.len() && #[trigger] b[j].0 == a[0].0;
        let i = choose|i: int| 0 <= i < a.len() && #[trigger] a[i].0 == b[0].0;
        if j > 0 {
            assert(text_lt(b[0].0, b[j].0));
            if i > 0 {
                assert(text_lt(a[0].0, a[i].0));
            }
        }
        assert(a[0].0 == b[0].0);
        assert(a[0] == b[0]);
        lemma_mapping_of_tail(a);
        lemma_mapping_of_tail(b);
        lemma_ascending_entries_are_unique(a.drop_first(), b.drop_first());
        assert(a =~= seq![a[0]] + a.drop_first());
        assert(b =~= seq![b[0]] + b.drop_first());
    }
}

/// The entries of `mapping` in ascending order of name: the order in which
/// headers are written out.
pub open spec fn entries_of(mapping: Map<Seq<char>, Seq<char>>) -> Seq<(Seq<char>, Seq<char>)> {
    choose|entries: Seq<(Seq<char>, Seq<char>)>|
        names_ascend(entries) && mapping_of(entries) == mapping
}

/// Whether `mapping` can be listed: whether `entries_of` spells it out in
/// ascending order of name. The mapping of every `Headers` value can.
pub open spec fn is_listed(mapping: Map<Seq<char>, Seq<char>>) -> bool {
    names_ascend(entries_of(mapping)) && mapping_of(entries_of(mapping)) == mapping
}

/// Ascending entries are the listing of their mapping.
pub proof fn lemma_entries_of_mapping(entries: Seq<(Seq<char>, Seq<char>)>)
    requires
        names_ascend(entries),
    ensures
        entries_of(mapping_of(entries)) == entries,
        is_listed(mapping_of(entries)),
{
    lemma_ascending_entries_are_unique(entries_of(mapping_of(entries)), entries);
}

/// A mapping from header name to header value. Names are told apart exactly
/// as written; setting a name again replaces its value.
#[derive(Debug)]
pub struct Headers {
    entries: Vec<(String, String)>,
}

impl View for Headers {
    type V = Map<Seq<char>, Seq<char>>;

    /// The mapping from name to value.
    closed spec fn view(&self) -> Map<Seq<char>, Seq<char>> {
        mapping_of(self.listing())
    }
}

impl Headers {
    /// The name and value of each stored entry, in order of storage.
    closed spec fn listing(&self) -> Seq<(Seq<char>, Seq<char>)> {
        Seq::new(self.entries@.len(), |i: int| (self.entries@[i].0@, self.entries@[i].1@))
    }

    /// The invariant of the collection: its entries are stored in strictly
    /// ascending order of name.
    #[verifier::type_invariant]
    pub closed spec fn well_formed(&self) -> bool {
        names_ascend(self.listing())
    }

    /// The mapping of a well-formed collection can be listed.
    pub proof fn lemma_is_listed(&self)
        requires
            self.well_formed(),
        ensures
            is_listed(self@),
    {
        lemma_entries_of_mapping(self.listing());
    }

    /// An empty collection.
    pub fn new() -> (r: Headers)
        ensures
            r@ == Map::<Seq<char>, Seq<char>>::empty(),
            r.well_formed(),
    {
        let r = Headers { entries: Vec::new() };
        proof {
            assert(r.listing() =~= Seq::<(Seq<char>, Seq<char>)>::empty());
            assert(r@ =~= Map::<Seq<char>, Seq<char>>::empty());
        }
        r
    }

    /// The number of headers.
    pub fn len(&self) -> (r: usize)
        ensures
            r == entries_of(self@).len(),
    {
        proof {
            use_type_invariant(self);
            lemma_entries_of_mapping(self.listing());
        }
        self.entries.len()
    }

    /// The name of the header at position `i` in ascending order of name.
    pub fn name_at(&self, i: usize) -> (r: &String)
        requires
            i < entries_of(self@).len(),
        ensures
            r@ == entries_of(self@)[i as int].0,
    {
        proof {
            use_type_invariant(self);
            lemma_entries_of_mapping(self.listing());
        }
        &self.entries[i].0
    }

    /// The value of the header at position `i` in ascending order of name.
    pub fn value_at(&self, i: usize) -> (r: &String)
        requires
            i < entries_of(self@).len(),
        ensures
            r@ == entries_of(self@)[i as int].1,
    {
        proof {
            use_type_invariant(self);
            lemma_entries_of_mapping(self.listing());
        }
        &self.entries[i].1
    }

    /// The position at which `name` stands, or would have to stand.
    fn position(&self, name: &str) -> (r: (usize, bool))
        ensures
            r.0 <= self.listing().len(),
            forall|k: int| 0 <= k < r.0 ==> text_lt(#[trigger] self.listing()[k].0, name@),
            r.1 ==> r.0 < self.listing().len() && self.listing()[r.0 as int].0 == name@,
            !r.1 ==> forall|k: int|
                r.0 <= k < self.listing().len() ==> text_lt(name@, #[trigger] self.listing()[k].0),
    {
        proof {
            use_type_invariant(self);
            lemma_text_lt_is_strict_total_order();
        }
        let mut i: usize = 0;
        while i < self.entries.len() && str_lt(self.entries[i].0.as_str(), name)
            invariant
                i <= self.entries@.len(),
                self.listing().len() == self.entries@.len(),
                forall|k: int| 0 <= k < i ==> text_lt(#[trigger] self.listing()[k].0, name@),
            decreases self.entries@.len() - i,
        {
            i += 1;
        }
        if i < self.entries.len() && str_eq(self.entries[i].0.as_str(), name) {
            (i, true)
        } else {
            proof {
                assert forall|k: int| i <= k < self.listing().len() implies text_lt(
                    name@,
                    #[trigger] self.listing()[k].0,
                ) by {
                    let first = self.listing()[i as int].0;
                    assert(!text_lt(first, name@));
                    assert(text_lt(name@, first));
                    if k > i {
                        assert(text_lt(first, self.listing()[k].0));
                    }
                }
            }
            (i, false)
        }
    }

    /// The value of the header named `name`, if there is one.
    pub fn get(&self, name: &str) -> (r: Option<&String>)
        ensures
            match r {
                Some(value) => self@.contains_key(name@) && value@ == self@[name@],
                None => !self@.contains_key(name@),
            },
    {
        proof {
            use_type_invariant(self);
            lemma_text_lt_is_strict_total_order();
        }
        let (i, found) = self.position(name);
        if found {
            proof {
                lemma_mapping_at(self.listing(), i as int);
            }
            Some(&self.entries[i].1)
        } else {
            proof {
                if has_name(self.listing(), name@) {
                    let k = choose|k: int|
                        0 <= k < self.listing().len() && #[trigger] self.listing()[k].0 == name@;
                    if k < i {
                        assert(text_lt(self.listing()[k].0, name@));
                    } else {
                        assert(text_lt(name@, self.listing()[k].0));
                    }
                }
            }
            None
        }
    }

    /// Sets the header `name` to `value`, replacing any value it had.
    pub fn insert(&mut self, name: String, value: String)
        ensures
            final(self)@ == old(self)@.insert(name@, value@),
            final(self).well_formed(),
    {
        proof {
            use_type_invariant(&*self);
        }
        let (i, found) = self.position(name.as_str());
        let ghost before = self.listing();
        let mut entries: Vec<(String, String)> = Vec::new();
        proof {
            assert(Headers { entries }.listing() =~= Seq::<(Seq<char>, Seq<char>)>::empty());
        }
        std::mem::swap(&mut self.entries, &mut entries);
        if found {
            proof {
                lemma_replace_value(before, i as int, value@);
            }
            entries.set(i, (name, value));
            proof {
                assert(Headers { entries }.listing() =~= before.update(
                    i as int,
                    (before[i as int].0, value@),
                ));
            }
            self.entries = entries;
        } else {
            proof {
                lemma_insert_entry(before, i as int, name@, value@);
            }
            entries.insert(i, (name, value));
            proof {
                assert(Headers { entries }.listing() =~= before.insert(i as int, (name@, value@)));
            }
            self.entries = entries;
        }
    }
}

/// The mapping that results when `pairs` are set one after the other: of
/// two pairs with one name, the later one stays.
pub open spec fn collected(pairs: Seq<(Seq<char>, Seq<char>)>) -> Map<Seq<char>, Seq<char>>
    decreases pairs.len(),
{
    if pairs.len() == 0 {
        Map::empty()
    } else {
        collected(pairs.drop_last()).insert(pairs.last().0, pairs.last().1)
    }
}

/// The names and values of `pairs`, as mathematical values.
pub open spec fn pair_views(pairs: Seq<(String, String)>) -> Seq<(Seq<char>, Seq<char>)> {
    Seq::new(pairs.len(), |i: int| (pairs[i].0@, pairs[i].1@))
}

impl<const N: usize> From<[(String, String); N]> for Headers {
    /// The headers that `pairs` list; of two pairs with one name, the later
    /// one stays.
    fn from(pairs: [(String, String); N]) -> (r: Headers)
        ensures
            r@ == collected(pair_views(pairs@)),
    {
        let ghost all = pair_views(pairs@);
        let mut headers = Headers::new();
        let mut i: usize = 0;
        proof {
            assert(all.take(0) =~= Seq::<(Seq<char>, Seq<char>)>::empty());
        }
        while i < N
            invariant
                i <= N,
                N == pairs@.len(),
                all == pair_views(pairs@),
                headers@ == collected(all.take(i as int)),
            decreases N - i,
        {
            proof {
                assert(all.take(i + 1).drop_last() =~= all.take(i as int));
            }
            headers.insert(pairs[i].0.clone(), pairs[i].1.clone());
            i += 1;
        }
        proof {
            assert(all.take(N as int) =~= all);
        }
        headers
    }
}

impl<const N: usize> FromSpecImpl<[(String, String); N]> for Headers {
    /// A `Headers` value is known by its view alone, which the contract of
    /// `from` gives.
    open spec fn obeys_from_spec() -> bool {
        false
    }

    open spec fn from_spec(pairs: [(String, String); N]) -> Headers {
        arbitrary()
    }
}

} // verus!
