//! A mapping from byte-string names to byte-string values.
//!
//! The pairs are kept in the order in which their names first came, and no
//! name occurs twice; a later value for a name replaces the earlier one.

use vstd::prelude::*;

verus! {

/// A name and its value, as byte strings.
pub type Pair = (Seq<u8>, Seq<u8>);

/// The mapping that a list of pairs stands for: where a name occurs more than
/// once, the last value counts.
pub open spec fn pairs_to_map(pairs: Seq<Pair>) -> Map<Seq<u8>, Seq<u8>>
    decreases pairs.len(),
{
    if pairs.len() == 0 {
        Map::empty()
    } else {
        pairs_to_map(pairs.drop_last()).insert(pairs.last().0, pairs.last().1)
    }
}

/// True if no name occurs twice in the list.
pub open spec fn distinct_names(pairs: Seq<Pair>) -> bool {
    forall|i: int, j: int| 0 <= i < j < pairs.len() ==> pairs[i].0 != pairs[j].0
}

/// True if some pair of the list has the name.
pub open spec fn has_name(pairs: Seq<Pair>, name: Seq<u8>) -> bool {
    exists|i: int| 0 <= i < pairs.len() && #[trigger] pairs[i].0 == name
}

/// The list after `name` was given `value`: the value replaces that of the
/// pair with this name, or a new pair joins at the end.
pub open spec fn pairs_insert(pairs: Seq<Pair>, name: Seq<u8>, value: Seq<u8>) -> Seq<Pair>
    decreases pairs.len(),
{
    if pairs.len() == 0 {
        seq![(name, value)]
    } else if pairs.first().0 == name {
        seq![(name, value)] + pairs.skip(1)
    } else {
        seq![pairs.first()] + pairs_insert(pairs.skip(1), name, value)
    }
}

/// The list after every pair of `more` was inserted, first to last.
pub open spec fn pairs_extend(pairs: Seq<Pair>, more: Seq<Pair>) -> Seq<Pair>
    decreases more.len(),
{
    if more.len() == 0 {
        pairs
    } else {
        pairs_insert(pairs_extend(pairs, more.drop_last()), more.last().0, more.last().1)
    }
}

/// The names of the mapping are the names of the list.
pub proof fn lemma_map_names(pairs: Seq<Pair>, name: Seq<u8>)
    ensures
        pairs_to_map(pairs).contains_key(name) <==> has_name(pairs, name),
        pairs_to_map(pairs).dom().finite(),
    decreases pairs.len(),
{
    if pairs.len() > 0 {
        let front = pairs.drop_last();
        lemma_map_names(front, name);
        if has_name(pairs, name) {
            let i = choose|i: int| 0 <= i < pairs.len() && #[trigger] pairs[i].0 == name;
            if i < front.len() {
                assert(front[i].0 == name);
            }
        }
    }
}

/// Where no name occurs twice, the mapping gives each name the value beside
/// it in the list, and has as many names as the list has pairs.
pub proof fn lemma_map_values(pairs: Seq<Pair>)
    requires
        distinct_names(pairs),
    ensures
        forall|i: int|
            0 <= i < pairs.len() ==> pairs_to_map(pairs).contains_key(#[trigger] pairs[i].0)
                && pairs_to_map(pairs)[pairs[i].0] == pairs[i].1,
        pairs_to_map(pairs).dom().finite(),
        pairs_to_map(pairs).dom().len() == pairs.len(),
    decreases pairs.len(),
{
    if pairs.len() > 0 {
        let front = pairs.drop_last();
        lemma_map_values(front);
        lemma_map_names(front, pairs.last().0);
        assert forall|i: int| 0 <= i < pairs.len() implies pairs_to_map(pairs).contains_key(
            #[trigger] pairs[i].0,
        ) && pairs_to_map(pairs)[pairs[i].0] == pairs[i].1 by {
            if i < front.len() {
                assert(front[i] == pairs[i]);
            }
        }
    }
}

/// Inserting into the list is inserting into the mapping; it keeps the names
/// distinct, keeps the place of every other pair, and lengthens the list by
/// one exactly if the name is new.
pub proof fn lemma_pairs_insert(pairs: Seq<Pair>, name: Seq<u8>, value: Seq<u8>)
    requires
        distinct_names(pairs),
    ensures
        distinct_names(pairs_insert(pairs, name, value)),
        pairs_to_map(pairs_insert(pairs, name, value)) == pairs_to_map(pairs).insert(name, value),
        has_name(pairs, name) ==> pairs_insert(pairs, name, value).len() == pairs.len(),
        !has_name(pairs, name) ==> pairs_insert(pairs, name, value) == pairs.push((name, value)),
        forall|i: int|
            0 <= i < pairs.len() ==> #[trigger] pairs_insert(pairs, name, value)[i] == (if pairs[i].0
                == name {
                (name, value)
            } else {
                pairs[i]
            }),
{
    lemma_pairs_insert_shape(pairs, name, value);
    let after = pairs_insert(pairs, name, value);
    assert(distinct_names(after)) by {
        assert forall|i: int, j: int| 0 <= i < j < after.len() implies after[i].0 != after[j].0 by {}
    }
    lemma_map_values(pairs);
    lemma_map_values(after);
    assert(pairs_to_map(after) =~= pairs_to_map(pairs).insert(name, value)) by {
        assert forall|k: Seq<u8>|
            pairs_to_map(after).contains_key(k) <==> pairs_to_map(pairs).insert(
                name,
                value,
            ).contains_key(k) by {
            lemma_map_names(after, k);
            lemma_map_names(pairs, k);
            if has_name(pairs, k) {
                let i = choose|i: int| 0 <= i < pairs.len() && #[trigger] pairs[i].0 == k;
                assert(after[i].0 == k);
            }
        }
        assert forall|k: Seq<u8>| pairs_to_map(after).contains_key(k) implies pairs_to_map(
            after,
        )[k] == pairs_to_map(pairs).insert(name, value)[k] by {
            lemma_map_names(after, k);
        }
    }
}

/// Extending the list is laying the second mapping over the first; it keeps
/// the names distinct.
pub proof fn lemma_pairs_extend(pairs: Seq<Pair>, more: Seq<Pair>)
    requires
        distinct_names(pairs),
    ensures
        distinct_names(pairs_extend(pairs, more)),
        pairs_to_map(pairs_extend(pairs, more)) == pairs_to_map(pairs).union_prefer_right(
            pairs_to_map(more),
        ),
    decreases more.len(),
{
    if more.len() > 0 {
        let front = more.drop_last();
        lemma_pairs_extend(pairs, front);
        lemma_pairs_insert(pairs_extend(pairs, front), more.last().0, more.last().1);
    }
}

/// The shape of the list after an insertion, pair by pair.
proof fn lemma_pairs_insert_shape(pairs: Seq<Pair>, name: Seq<u8>, value: Seq<u8>)
    ensures
        has_name(pairs, name) ==> pairs_insert(pairs, name, value).len() == pairs.len(),
        !has_name(pairs, name) ==> pairs_insert(pairs, name, value) == pairs.push((name, value)),
        pairs.len() <= pairs_insert(pairs, name, value).len() <= pairs.len() + 1,
        forall|i: int|
            0 <= i < pairs.len() ==> #[trigger] pairs_insert(pairs, name, value)[i] == (if pairs[i].0
                == name && (forall|j: int| 0 <= j < i ==> pairs[j].0 != name) {
                (name, value)
            } else {
                pairs[i]
            }),
    decreases pairs.len(),
{
    let after = pairs_insert(pairs, name, value);
    if pairs.len() > 0 && pairs.first().0 != name {
        let rest = pairs.skip(1);
        lemma_pairs_insert_shape(rest, name, value);
        if has_name(pairs, name) {
            let i = choose|i: int| 0 <= i < pairs.len() && #[trigger] pairs[i].0 == name;
            assert(rest[i - 1].0 == name);
        }
        assert forall|i: int| 0 <= i < pairs.len() implies #[trigger] after[i] == (if pairs[i].0
            == name && (forall|j: int| 0 <= j < i ==> pairs[j].0 != name) {
            (name, value)
        } else {
            pairs[i]
        }) by {
            if i > 0 {
                if forall|j: int| 0 <= j < i - 1 ==> rest[j].0 != name {
                    assert forall|j: int| 0 <= j < i implies pairs[j].0 != name by {
                        if j > 0 {
                            assert(rest[j - 1].0 != name);
                        }
                    }
                }
            }
        }
    }
}

/// True if the two byte strings are equal.
pub fn bytes_eq(a: &[u8], b: &[u8]) -> (equal: bool)
    ensures
        equal == (a@ == b@),
{
    if a.len() != b.len() {
        return false;
    }
    let mut i: usize = 0;
    while i < a.len()
        invariant
            i <= a@.len(),
            a@.len() == b@.len(),
            forall|j: int| 0 <= j < i ==> a@[j] == b@[j],
        decreases a@.len() - i,
    {
        if a[i] != b[i] {
            return false;
        }
        i += 1;
    }
    assert(a@ =~= b@);
    true
}

/// A copy of the byte string.
pub fn bytes_to_vec(data: &[u8]) -> (copy: Vec<u8>)
    ensures
        copy@ == data@,
{
    let mut copy: Vec<u8> = Vec::with_capacity(data.len());
    copy.extend_from_slice(data);
    copy
}

/// The pairs that a vector of byte-string pairs holds.
pub open spec fn pairs_of(entries: Seq<(Vec<u8>, Vec<u8>)>) -> Seq<Pair> {
    Seq::new(entries.len(), |i: int| (entries[i].0@, entries[i].1@))
}

/// A mapping from byte-string names to byte-string values, with the names
/// in the order in which they first came.
#[derive(Debug)]
pub struct HeaderMap {
    entries: Vec<(Vec<u8>, Vec<u8>)>,
}

impl View for HeaderMap {
    type V = Map<Seq<u8>, Seq<u8>>;

    /// The mapping that the pairs stand for.
    open spec fn view(&self) -> Map<Seq<u8>, Seq<u8>> {
        pairs_to_map(self.pairs())
    }
}

impl HeaderMap {
    /// The pairs of the mapping, in the order in which their names first
    /// came.
    pub closed spec fn pairs(&self) -> Seq<Pair> {
        pairs_of(self.entries@)
    }

    /// No name occurs twice among the pairs. This holds of every value of
    /// the type.
    #[verifier::type_invariant]
    pub open spec fn distinct(&self) -> bool {
        distinct_names(self.pairs())
    }

    /// The empty mapping.
    pub fn new() -> (map: HeaderMap)
        ensures
            map.pairs() == Seq::<Pair>::empty(),
            map@ == Map::<Seq<u8>, Seq<u8>>::empty(),
    {
        HeaderMap { entries: Vec::new() }
    }

    /// The number of names.
    pub fn len(&self) -> (len: usize)
        ensures
            len == self.pairs().len(),
            len == self@.dom().len(),
    {
        proof {
            use_type_invariant(self);
            lemma_map_values(self.pairs());
        }
        self.entries.len()
    }

    /// True if the mapping has no name.
    pub fn is_empty(&self) -> (empty: bool)
        ensures
            empty == (self.pairs().len() == 0),
            empty == (self@ == Map::<Seq<u8>, Seq<u8>>::empty()),
    {
        proof {
            use_type_invariant(self);
            lemma_map_values(self.pairs());
        }
        self.entries.len() == 0
    }

    /// The place of `name` among the pairs, if it has one.
    fn position(&self, name: &[u8]) -> (place: Option<usize>)
        ensures
            match place {
                Some(i) => i < self.pairs().len() && self.pairs()[i as int].0 == name@,
                None => !has_name(self.pairs(), name@),
            },
    {
        let mut i: usize = 0;
        while i < self.entries.len()
            invariant
                i <= self.entries@.len(),
                forall|j: int| 0 <= j < i ==> self.pairs()[j].0 != name@,
            decreases self.entries@.len() - i,
        {
            if bytes_eq(self.entries[i].0.as_slice(), name) {
                return Some(i);
            }
            i += 1;
        }
        None
    }

    /// True if the mapping has the name. Names are case-sensitive.
    pub fn contains_key(&self, name: &[u8]) -> (found: bool)
        ensures
            found == self@.contains_key(name@),
    {
        proof {
            lemma_map_names(self.pairs(), name@);
        }
        self.position(name).is_some()
    }

    /// The value of `name`, if the mapping has the name. Names are
    /// case-sensitive.
    pub fn get(&self, name: &[u8]) -> (value: Option<&Vec<u8>>)
        ensures
            match value {
                Some(v) => self@.contains_key(name@) && v@ == self@[name@],
                None => !self@.contains_key(name@),
            },
    {
        proof {
            use_type_invariant(self);
            lemma_map_names(self.pairs(), name@);
            lemma_map_values(self.pairs());
        }
        match self.position(name) {
            Some(i) => Some(&self.entries[i].1),
            None => None,
        }
    }

    /// The name of the pair at place `i`.
    pub fn name_at(&self, i: usize) -> (name: &Vec<u8>)
        requires
            i < self.pairs().len(),
        ensures
            name@ == self.pairs()[i as int].0,
    {
        &self.entries[i].0
    }

    /// The value of the pair at place `i`.
    pub fn value_at(&self, i: usize) -> (value: &Vec<u8>)
        requires
            i < self.pairs().len(),
        ensures
            value@ == self.pairs()[i as int].1,
    {
        &self.entries[i].1
    }

    /// Gives `name` the value `value`, and returns the value that it had. A
    /// new name joins the pairs at the end; a known one keeps its place.
    pub fn insert(&mut self, name: Vec<u8>, value: Vec<u8>) -> (previous: Option<Vec<u8>>)
        ensures
            final(self)@ == old(self)@.insert(name@, value@),
            final(self).pairs() == pairs_insert(old(self).pairs(), name@, value@),
            match previous {
                Some(v) => old(self)@.contains_key(name@) && v@ == old(self)@[name@],
                None => !old(self)@.contains_key(name@),
            },
    {
        proof {
            use_type_invariant(&*self);
            lemma_map_names(self.pairs(), name@);
            lemma_map_values(self.pairs());
            lemma_pairs_insert(self.pairs(), name@, value@);
        }
        let ghost after = pairs_insert(self.pairs(), name@, value@);
        let place = self.position(name.as_slice());
        let mut entries: Vec<(Vec<u8>, Vec<u8>)> = Vec::new();
        core::mem::swap(&mut self.entries, &mut entries);
        let previous = match place {
            Some(i) => {
                let mut pair = (name, value);
                assert(pairs_of(entries@.update(i as int, pair)) =~= after);
                core::mem::swap(&mut entries[i], &mut pair);
                Some(pair.1)
            },
            None => {
                assert(pairs_of(entries@.push((name, value))) =~= after);
                entries.push((name, value));
                None
            },
        };
        self.entries = entries;
        previous
    }

    /// Gives every name of `other` the value that it has there, first pair
    /// to last. Names that only `self` has keep their values.
    pub fn extend(&mut self, other: &HeaderMap)
        ensures
            final(self).pairs() == pairs_extend(old(self).pairs(), other.pairs()),
            final(self)@ == old(self)@.union_prefer_right(other@),
    {
        self.insert_all(&other.entries);
    }

    /// Inserts every pair of the list, first to last: of two values for one
    /// name the later counts.
    pub fn insert_all(&mut self, list: &Vec<(Vec<u8>, Vec<u8>)>)
        ensures
            final(self).pairs() == pairs_extend(old(self).pairs(), pairs_of(list@)),
            final(self)@ == old(self)@.union_prefer_right(pairs_to_map(pairs_of(list@))),
    {
        proof {
            use_type_invariant(&*self);
            lemma_pairs_extend(self.pairs(), pairs_of(list@));
        }
        let ghost more = pairs_of(list@);
        let mut i: usize = 0;
        while i < list.len()
            invariant
                i <= list@.len(),
                more == pairs_of(list@),
                self.pairs() == pairs_extend(old(self).pairs(), more.take(i as int)),
            decreases list@.len() - i,
        {
            let name = bytes_to_vec(list[i].0.as_slice());
            let value = bytes_to_vec(list[i].1.as_slice());
            assert(more.take(i + 1).drop_last() =~= more.take(i as int));
            self.insert(name, value);
            i += 1;
        }
        assert(more.take(i as int) =~= more);
    }
}

} // verus!
