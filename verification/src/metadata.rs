//! The metadata bag: typed values under text keys, kept in the order of the
//! keys, with at most one value under each.

use vstd::prelude::*;
use vstd::string::*;
use crate::text::{lemma_precedes_asymmetric, lemma_precedes_transitive, precedes, rank, Rank};

verus! {

/// A typed value of the metadata bag.
#[derive(Clone, Debug, PartialEq, Eq)]
pub enum Parameter {
    Bool(bool),
    Integer(i64),
    Text(String),
    ListInt(Vec<i64>),
    /// A 64-bit floating-point number, held by its bit pattern.
    Float(u64),
    /// Floating-point numbers, each held by its bit pattern.
    ListFloat(Vec<u64>),
    ListText(Vec<String>),
}

/// What a [`Parameter`] holds, as a mathematical value.
pub enum Value {
    Bool(bool),
    Integer(i64),
    Text(Seq<char>),
    ListInt(Seq<i64>),
    Float(u64),
    ListFloat(Seq<u64>),
    ListText(Seq<Seq<char>>),
}

impl Parameter {
    /// What the parameter holds.
    pub open spec fn value(&self) -> Value {
        match self {
            Parameter::Bool(b) => Value::Bool(*b),
            Parameter::Integer(n) => Value::Integer(*n),
            Parameter::Text(text) => Value::Text(text@),
            Parameter::ListInt(list) => Value::ListInt(list@),
            Parameter::Float(bits) => Value::Float(*bits),
            Parameter::ListFloat(list) => Value::ListFloat(list@),
            Parameter::ListText(list) => Value::ListText(
                Seq::new(list@.len(), |i: int| list@[i]@),
            ),
        }
    }
}

/// One entry of the bag.
#[derive(Clone, Debug, PartialEq, Eq)]
pub struct Entry {
    pub key: String,
    pub value: Parameter,
}

impl Entry {
    /// The entry as a pair of mathematical values.
    pub open spec fn pair(&self) -> (Seq<char>, Value) {
        (self.key@, self.value.value())
    }
}

/// The entries as pairs of mathematical values, in their order.
pub open spec fn pairs_of(entries: Seq<Entry>) -> Seq<(Seq<char>, Value)> {
    Seq::new(entries.len(), |i: int| entries[i].pair())
}

/// The keys stand in strictly ascending order; so none occurs twice.
pub open spec fn ascending(pairs: Seq<(Seq<char>, Value)>) -> bool {
    forall|i: int, j: int|
        0 <= i < j < pairs.len() ==> precedes(#[trigger] pairs[i].0, #[trigger] pairs[j].0)
}

/// Some pair has the key.
pub open spec fn holds(pairs: Seq<(Seq<char>, Value)>, key: Seq<char>) -> bool {
    exists|i: int| 0 <= i < pairs.len() && #[trigger] pairs[i].0 == key
}

/// Where the pair with the key stands.
pub open spec fn place_of(pairs: Seq<(Seq<char>, Value)>, key: Seq<char>) -> int {
    choose|i: int| 0 <= i < pairs.len() && #[trigger] pairs[i].0 == key
}

/// The mapping that the pairs make up: each key to the value beside it.
pub open spec fn mapping_of(pairs: Seq<(Seq<char>, Value)>) -> Map<Seq<char>, Value> {
    Map::new(|key: Seq<char>| holds(pairs, key), |key: Seq<char>| pairs[place_of(pairs, key)].1)
}

/// In ascending pairs a key stands at one place only.
proof fn lemma_one_place(pairs: Seq<(Seq<char>, Value)>, i: int)
    requires
        ascending(pairs),
        0 <= i < pairs.len(),
    ensures
        holds(pairs, pairs[i].0),
        place_of(pairs, pairs[i].0) == i,
        mapping_of(pairs).contains_key(pairs[i].0),
        mapping_of(pairs)[pairs[i].0] == pairs[i].1,
{
    let j = place_of(pairs, pairs[i].0);
    if j < i {
        lemma_precedes_asymmetric(pairs[j].0, pairs[i].0);
    } else if i < j {
        lemma_precedes_asymmetric(pairs[i].0, pairs[j].0);
    }
}

/// A key that falls between two neighbours of ascending pairs is not among
/// them.
proof fn lemma_no_place(pairs: Seq<(Seq<char>, Value)>, at: int, key: Seq<char>)
    requires
        0 <= at <= pairs.len(),
        forall|i: int| 0 <= i < at ==> precedes(#[trigger] pairs[i].0, key),
        forall|i: int| at <= i < pairs.len() ==> precedes(key, #[trigger] pairs[i].0),
    ensures
        !holds(pairs, key),
        !mapping_of(pairs).contains_key(key),
{
    if holds(pairs, key) {
        let i = place_of(pairs, key);
        if i < at {
            lemma_precedes_asymmetric(pairs[i].0, key);
        } else {
            lemma_precedes_asymmetric(key, pairs[i].0);
        }
    }
}

/// A pair with a new key, put where the order wants it, adds one entry to
/// the mapping and leaves the others.
proof fn lemma_insert_new(pairs: Seq<(Seq<char>, Value)>, at: int, key: Seq<char>, value: Value)
    requires
        ascending(pairs),
        0 <= at <= pairs.len(),
        forall|i: int| 0 <= i < at ==> precedes(#[trigger] pairs[i].0, key),
        forall|i: int| at <= i < pairs.len() ==> precedes(key, #[trigger] pairs[i].0),
    ensures
        ascending(pairs.insert(at, (key, value))),
        mapping_of(pairs.insert(at, (key, value))) == mapping_of(pairs).insert(key, value),
{
    let grown = pairs.insert(at, (key, value));
    assert forall|i: int, j: int| 0 <= i < j < grown.len() implies precedes(
        #[trigger] grown[i].0,
        #[trigger] grown[j].0,
    ) by {
        let before = if i < at {
            i
        } else {
            i - 1
        };
        let after = if j < at {
            j
        } else {
            j - 1
        };
        if i != at && j != at {
            assert(precedes(pairs[before].0, pairs[after].0));
        } else if i == at {
            assert(precedes(key, pairs[after].0));
        } else {
            assert(precedes(pairs[before].0, key));
        }
    }
    lemma_no_place(pairs, at, key);
    let left = mapping_of(grown);
    let right = mapping_of(pairs).insert(key, value);
    assert forall|k: Seq<char>| left.contains_key(k) <==> right.contains_key(k) by {
        if holds(grown, k) {
            let i = place_of(grown, k);
            if i < at {
                assert(pairs[i].0 == k);
            } else if i > at {
                assert(pairs[i - 1].0 == k);
            }
        }
        if holds(pairs, k) {
            let i = place_of(pairs, k);
            if i < at {
                assert(grown[i].0 == k);
            } else {
                assert(grown[i + 1].0 == k);
            }
        }
        if k == key {
            assert(grown[at].0 == k);
        }
    }
    assert forall|k: Seq<char>| left.contains_key(k) implies left[k] == right[k] by {
        if k == key {
            lemma_one_place(grown, at);
        } else {
            let i = place_of(pairs, k);
            lemma_one_place(pairs, i);
            let moved = if i < at {
                i
            } else {
                i + 1
            };
            lemma_one_place(grown, moved);
        }
    }
    assert(left =~= right);
}

/// A new value under a key that the pairs hold takes the place of the old
/// one and leaves all else.
proof fn lemma_overwrite(pairs: Seq<(Seq<char>, Value)>, at: int, value: Value)
    requires
        ascending(pairs),
        0 <= at < pairs.len(),
    ensures
        ascending(pairs.update(at, (pairs[at].0, value))),
        mapping_of(pairs.update(at, (pairs[at].0, value))) == mapping_of(pairs).insert(
            pairs[at].0,
            value,
        ),
{
    let key = pairs[at].0;
    let changed = pairs.update(at, (key, value));
    assert forall|i: int, j: int| 0 <= i < j < changed.len() implies precedes(
        #[trigger] changed[i].0,
        #[trigger] changed[j].0,
    ) by {
        assert(precedes(pairs[i].0, pairs[j].0));
    }
    let left = mapping_of(changed);
    let right = mapping_of(pairs).insert(key, value);
    assert forall|k: Seq<char>| left.contains_key(k) <==> right.contains_key(k) by {
        if holds(changed, k) {
            let i = place_of(changed, k);
            assert(pairs[i].0 == k);
        }
        if holds(pairs, k) {
            let i = place_of(pairs, k);
            assert(changed[i].0 == k);
        }
        if k == key {
            assert(changed[at].0 == k);
        }
    }
    assert forall|k: Seq<char>| left.contains_key(k) implies left[k] == right[k] by {
        if k == key {
            lemma_one_place(changed, at);
        } else {
            let i = place_of(pairs, k);
            lemma_one_place(pairs, i);
            lemma_one_place(changed, i);
        }
    }
    assert(left =~= right);
}

/// Ascending pairs make up a finite mapping with one entry for each pair.
proof fn lemma_one_entry_each(pairs: Seq<(Seq<char>, Value)>)
    requires
        ascending(pairs),
    ensures
        mapping_of(pairs).dom().finite(),
        mapping_of(pairs).dom().len() == pairs.len(),
{
    let keys = pairs.map_values(|pair: (Seq<char>, Value)| pair.0);
    assert forall|i: int, j: int| 0 <= i < keys.len() && 0 <= j < keys.len() && i != j implies keys[i]
        != keys[j] by {
        if i < j {
            lemma_precedes_asymmetric(pairs[i].0, pairs[j].0);
        } else {
            lemma_precedes_asymmetric(pairs[j].0, pairs[i].0);
        }
    }
    assert forall|key: Seq<char>| mapping_of(pairs).dom().contains(key) <==> keys.to_set().contains(
        key,
    ) by {
        if holds(pairs, key) {
            let i = place_of(pairs, key);
            assert(keys[i] == key);
        }
        if keys.contains(key) {
            let i = choose|i: int| 0 <= i < keys.len() && keys[i] == key;
            assert(pairs[i].0 == key);
        }
    }
    assert(mapping_of(pairs).dom() =~= keys.to_set());
    keys.unique_seq_to_set();
    vstd::seq_lib::seq_to_set_is_finite(keys);
}

/// In two ascending runs of pairs that make up the same mapping, a key of
/// the one stands in the other no further to the front.
proof fn lemma_place_climbs(a: Seq<(Seq<char>, Value)>, b: Seq<(Seq<char>, Value)>, i: int)
    requires
        ascending(a),
        ascending(b),
        mapping_of(a) == mapping_of(b),
        0 <= i < a.len(),
    ensures
        i <= place_of(b, a[i].0) < b.len(),
        b[place_of(b, a[i].0)].0 == a[i].0,
    decreases i,
{
    lemma_one_place(a, i);
    assert(mapping_of(b).contains_key(a[i].0));
    let j = place_of(b, a[i].0);
    if i > 0 {
        lemma_place_climbs(a, b, i - 1);
        let before = place_of(b, a[i - 1].0);
        assert(precedes(a[i - 1].0, a[i].0));
        lemma_precedes_asymmetric(b[before].0, b[j].0);
        if j < before {
            assert(precedes(b[j].0, b[before].0));
        }
    }
}

/// The order of a bag is determined by what it holds: two ascending runs
/// of pairs that make up the same mapping are the same run.
pub proof fn law_order_is_determined(a: Seq<(Seq<char>, Value)>, b: Seq<(Seq<char>, Value)>)
    requires
        ascending(a),
        ascending(b),
        mapping_of(a) == mapping_of(b),
    ensures
        a == b,
{
    if a.len() > 0 {
        lemma_place_climbs(a, b, a.len() - 1);
    }
    if b.len() > 0 {
        lemma_place_climbs(b, a, b.len() - 1);
    }
    assert forall|i: int| 0 <= i < a.len() implies a[i] == b[i] by {
        lemma_place_climbs(a, b, i);
        let j = place_of(b, a[i].0);
        lemma_place_climbs(b, a, j);
        lemma_one_place(a, i);
        lemma_one_place(b, i);
    }
    assert(a =~= b);
}

/// The mapping with what is known of a frame put in: the tag of the pixel
/// format under `encoding`, the frame's size under `height` and `width`.
pub open spec fn enriched(
    bag: Map<Seq<char>, Value>,
    encoding: Seq<char>,
    height: i64,
    width: i64,
) -> Map<Seq<char>, Value> {
    bag.insert("encoding"@, Value::Text(encoding)).insert("height"@, Value::Integer(height)).insert(
        "width"@,
        Value::Integer(width),
    )
}

/// Enrichment sets exactly three entries, whatever stood under their keys
/// before: the encoding and the frame's height and width.  Every entry
/// under another key stays as it was, and no other key is added.
pub proof fn law_enrichment_sets_three_entries(
    bag: Map<Seq<char>, Value>,
    encoding: Seq<char>,
    height: i64,
    width: i64,
)
    ensures
        ({
            let out = enriched(bag, encoding, height, width);
            &&& out.dom() == bag.dom().insert("encoding"@).insert("height"@).insert("width"@)
            &&& out["encoding"@] == Value::Text(encoding)
            &&& out["height"@] == Value::Integer(height)
            &&& out["width"@] == Value::Integer(width)
            &&& forall|key: Seq<char>|
                key != "encoding"@ && key != "height"@ && key != "width"@ ==> (out.contains_key(key)
                    == bag.contains_key(key)) && (bag.contains_key(key) ==> out[key] == bag[key])
        }),
{
    reveal_strlit("encoding");
    reveal_strlit("height");
    reveal_strlit("width");
    let out = enriched(bag, encoding, height, width);
    assert("encoding"@.len() == 8 && "height"@.len() == 6 && "width"@.len() == 5);
    assert(out.dom() =~= bag.dom().insert("encoding"@).insert("height"@).insert("width"@));
}

/// An ordered mapping from text keys to typed values.
///
/// The entries stand in the ascending order of their keys, which is the
/// order of the keys' bytes, and no key occurs twice.
#[derive(Debug, PartialEq, Eq)]
pub struct MetadataBag {
    entries: Vec<Entry>,
}

impl View for MetadataBag {
    type V = Map<Seq<char>, Value>;

    /// The bag as a mapping from keys to values.
    open spec fn view(&self) -> Map<Seq<char>, Value> {
        mapping_of(self.pairs())
    }
}

impl MetadataBag {
    #[verifier::type_invariant]
    spec fn in_order(&self) -> bool {
        ascending(pairs_of(self.entries@))
    }

    /// The entries as pairs, in the order in which the bag keeps them.
    pub closed spec fn pairs(&self) -> Seq<(Seq<char>, Value)> {
        pairs_of(self.entries@)
    }

    /// A bag without entries.
    pub fn new() -> (bag: MetadataBag)
        ensures
            bag.pairs() == Seq::<(Seq<char>, Value)>::empty(),
            bag@ == Map::<Seq<char>, Value>::empty(),
    {
        let bag = MetadataBag { entries: Vec::new() };
        assert(bag.pairs() =~= Seq::empty());
        assert(bag@ =~= Map::empty());
        bag
    }

    /// The number of entries.
    pub fn len(&self) -> (n: usize)
        ensures
            n == self.pairs().len(),
            self@.dom().finite(),
            n == self@.dom().len(),
    {
        proof {
            use_type_invariant(self);
            lemma_one_entry_each(self.pairs());
        }
        self.entries.len()
    }

    /// Where `key` stands or, if the bag does not hold it, would stand;
    /// and whether the bag holds it.
    fn locate(&self, key: &str) -> (r: (usize, bool))
        ensures
            ascending(self.pairs()),
            r.0 <= self.pairs().len(),
            forall|i: int| 0 <= i < r.0 ==> precedes(#[trigger] self.pairs()[i].0, key@),
            r.1 ==> r.0 < self.pairs().len() && self.pairs()[r.0 as int].0 == key@,
            !r.1 ==> forall|i: int|
                r.0 <= i < self.pairs().len() ==> precedes(key@, #[trigger] self.pairs()[i].0),
    {
        proof {
            use_type_invariant(self);
        }
        let mut place: usize = 0;
        while place < self.entries.len()
            invariant
                ascending(self.pairs()),
                place <= self.entries.len(),
                forall|i: int| 0 <= i < place ==> precedes(#[trigger] self.pairs()[i].0, key@),
            decreases self.entries.len() - place,
        {
            match rank(self.entries[place].key.as_str(), key) {
                Rank::Before => {
                    place = place + 1;
                },
                Rank::Same => {
                    return (place, true);
                },
                Rank::After => {
                    proof {
                        lemma_precedes_after(self.pairs()[place as int].0, key@);
                        assert forall|i: int| place <= i < self.pairs().len() implies precedes(
                            key@,
                            #[trigger] self.pairs()[i].0,
                        ) by {
                            if place < i {
                                lemma_precedes_transitive(
                                    key@,
                                    self.pairs()[place as int].0,
                                    self.pairs()[i].0,
                                );
                            }
                        }
                    }
                    return (place, false);
                },
            }
        }
        (place, false)
    }

    /// The value under `key`, if the bag holds one.
    pub fn get(&self, key: &str) -> (found: Option<&Parameter>)
        ensures
            match found {
                Some(parameter) => self@.contains_key(key@) && self@[key@] == parameter.value(),
                None => !self@.contains_key(key@),
            },
    {
        let (place, present) = self.locate(key);
        if present {
            proof {
                lemma_one_place(self.pairs(), place as int);
            }
            Some(&self.entries[place].value)
        } else {
            proof {
                lemma_no_place(self.pairs(), place as int, key@);
            }
            None
        }
    }

    /// Puts `value` under `key`.  A value that stood there before is
    /// replaced and handed back; every other entry stays as it is.
    pub fn insert(&mut self, key: String, value: Parameter) -> (previous: Option<Parameter>)
        ensures
            final(self)@ == old(self)@.insert(key@, value.value()),
            ascending(final(self).pairs()),
            match previous {
                Some(parameter) => old(self)@.contains_key(key@) && old(self)@[key@]
                    == parameter.value(),
                None => !old(self)@.contains_key(key@),
            },
    {
        let (place, present) = self.locate(key.as_str());
        let ghost before = self.pairs();
        let ghost pair = (key@, value.value());
        let mut entries: Vec<Entry> = Vec::new();
        assert(pairs_of(entries@) =~= Seq::empty());
        core::mem::swap(&mut self.entries, &mut entries);
        if present {
            proof {
                lemma_one_place(before, place as int);
                lemma_overwrite(before, place as int, value.value());
            }
            let replaced = entries.remove(place);
            entries.insert(place, Entry { key, value });
            assert(pairs_of(entries@) =~= before.update(place as int, pair));
            self.entries = entries;
            Some(replaced.value)
        } else {
            proof {
                lemma_no_place(before, place as int, key@);
                lemma_insert_new(before, place as int, key@, value.value());
            }
            entries.insert(place, Entry { key, value });
            assert(pairs_of(entries@) =~= before.insert(place as int, pair));
            self.entries = entries;
            None
        }
    }

    /// Attaches what is known of a frame: the tag of its pixel format under
    /// `encoding`, and its size under `height` and `width`.  Values that
    /// stood under these three keys are replaced; all other entries stay.
    pub fn enrich(&mut self, encoding: &str, height: i64, width: i64)
        ensures
            final(self)@ == enriched(old(self)@, encoding@, height, width),
            ascending(final(self).pairs()),
    {
        self.insert(String::from_str("encoding"), Parameter::Text(String::from_str(encoding)));
        self.insert(String::from_str("height"), Parameter::Integer(height));
        self.insert(String::from_str("width"), Parameter::Integer(width));
    }

    /// Takes the bag apart into its entries, in the order of their keys.
    pub fn into_entries(self) -> (entries: Vec<Entry>)
        ensures
            pairs_of(entries@) == self.pairs(),
            ascending(self.pairs()),
    {
        proof {
            use_type_invariant(&self);
        }
        self.entries
    }
}

/// What does not come before another text and is not the same comes after.
proof fn lemma_precedes_after(a: Seq<char>, b: Seq<char>)
    requires
        crate::text::rank_of(a, b) == Rank::After,
    ensures
        precedes(b, a),
{
    crate::text::lemma_precedes_total(a, b);
}

} // verus!
