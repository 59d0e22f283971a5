//! A map from text keys to values, kept sorted by key.  Its entries are
//! visited in increasing key order, the order in which the report lists
//! customers.
use vstd::prelude::*;
use crate::text::chars_of;

verus! {

/// `a` comes strictly before `b` in the order of `str`'s `Ord`: character by
/// character by code point, a proper prefix first.
pub open spec fn text_less(a: Seq<char>, b: Seq<char>) -> bool
    decreases a.len(),
{
    if a.len() == 0 {
        b.len() > 0
    } else if b.len() == 0 {
        false
    } else if (a[0] as int) < (b[0] as int) {
        true
    } else if a[0] == b[0] {
        text_less(a.drop_first(), b.drop_first())
    } else {
        false
    }
}

proof fn lemma_text_less_irreflexive(a: Seq<char>)
    ensures
        !text_less(a, a),
    decreases a.len(),
{
    if a.len() > 0 {
        lemma_text_less_irreflexive(a.drop_first());
    }
}

proof fn lemma_text_less_asymmetric(a: Seq<char>, b: Seq<char>)
    ensures
        text_less(a, b) ==> !text_less(b, a),
    decreases a.len(),
{
    if a.len() > 0 && b.len() > 0 {
        lemma_text_less_asymmetric(a.drop_first(), b.drop_first());
    }
}

proof fn lemma_text_less_transitive(a: Seq<char>, b: Seq<char>, c: Seq<char>)
    ensures
        text_less(a, b) && text_less(b, c) ==> text_less(a, c),
    decreases a.len(),
{
    if a.len() > 0 && b.len() > 0 && c.len() > 0 {
        lemma_text_less_transitive(a.drop_first(), b.drop_first(), c.drop_first());
    }
}

proof fn lemma_text_less_total(a: Seq<char>, b: Seq<char>)
    ensures
        a != b ==> text_less(a, b) || text_less(b, a),
    decreases a.len(),
{
    if a.len() > 0 && b.len() > 0 {
        lemma_text_less_total(a.drop_first(), b.drop_first());
        if a[0] == b[0] && a.drop_first() == b.drop_first() {
            assert(a =~= seq![a[0]] + a.drop_first());
            assert(b =~= seq![b[0]] + b.drop_first());
        }
    }
    if a.len() == 0 && b.len() == 0 {
        assert(a =~= b);
    }
}

/// The order on texts is a strict total order.
pub proof fn lemma_text_less_order(a: Seq<char>, b: Seq<char>, c: Seq<char>)
    ensures
        !text_less(a, a),
        text_less(a, b) ==> !text_less(b, a),
        text_less(a, b) && text_less(b, c) ==> text_less(a, c),
        a != b ==> text_less(a, b) || text_less(b, a),
{
    lemma_text_less_irreflexive(a);
    lemma_text_less_asymmetric(a, b);
    lemma_text_less_transitive(a, b, c);
    lemma_text_less_total(a, b);
}

/// The result of comparing two texts.
pub enum TextOrder {
    Less,
    Equal,
    Greater,
}

/// Compares two texts given as characters.
pub fn compare_text(a: &[char], b: &[char]) -> (r: TextOrder)
    ensures
        r is Less <==> text_less(a@, b@),
        r is Equal <==> a@ == b@,
        r is Greater <==> text_less(b@, a@),
{
    proof {
        lemma_text_less_order(a@, b@, b@);
        lemma_text_less_order(b@, a@, a@);
    }
    let mut i: usize = 0;
    while i < a.len() && i < b.len()
        invariant
            i <= a.len(),
            i <= b.len(),
            a@.take(i as int) == b@.take(i as int),
        decreases a.len() - i,
    {
        if a[i] < b[i] {
            proof {
                lemma_less_after_common_prefix(a@, b@, i as int);
                lemma_text_less_order(a@, b@, b@);
            }
            return TextOrder::Less;
        }
        if b[i] < a[i] {
            proof {
                lemma_less_after_common_prefix(b@, a@, i as int);
                lemma_text_less_order(b@, a@, a@);
            }
            return TextOrder::Greater;
        }
        assert(a@.take(i + 1) == a@.take(i as int).push(a@[i as int]));
        assert(b@.take(i + 1) == b@.take(i as int).push(b@[i as int]));
        i += 1;
    }
    proof { lemma_prefix_order(a@, b@, i as int); }
    if a.len() < b.len() {
        TextOrder::Less
    } else if b.len() < a.len() {
        TextOrder::Greater
    } else {
        assert(a@ == a@.take(i as int));
        assert(b@ == b@.take(i as int));
        TextOrder::Equal
    }
}

proof fn lemma_less_after_common_prefix(a: Seq<char>, b: Seq<char>, i: int)
    requires
        0 <= i < a.len(),
        i < b.len(),
        a.take(i) == b.take(i),
        (a[i] as int) < (b[i] as int),
    ensures
        text_less(a, b),
    decreases i,
{
    if i > 0 {
        assert(a[0] == a.take(i)[0]);
        assert(b[0] == b.take(i)[0]);
        assert(a.drop_first().take(i - 1) =~= a.take(i).drop_first());
        assert(b.drop_first().take(i - 1) =~= b.take(i).drop_first());
        lemma_less_after_common_prefix(a.drop_first(), b.drop_first(), i - 1);
    }
}

proof fn lemma_prefix_order(a: Seq<char>, b: Seq<char>, i: int)
    requires
        0 <= i,
        i == a.len() || i == b.len(),
        i <= a.len(),
        i <= b.len(),
        a.take(i) == b.take(i),
    ensures
        a.len() < b.len() ==> text_less(a, b),
        b.len() < a.len() ==> text_less(b, a),
    decreases i,
{
    if i > 0 {
        assert(a[0] == a.take(i)[0]);
        assert(b[0] == b.take(i)[0]);
        assert(a.drop_first().take(i - 1) =~= a.take(i).drop_first());
        assert(b.drop_first().take(i - 1) =~= b.take(i).drop_first());
        lemma_prefix_order(a.drop_first(), b.drop_first(), i - 1);
    }
}

#[derive(Clone)]
struct Slot<V> {
    key: String,
    value: V,
}

/// A map from `String` keys to values; its entries stay sorted by key, and no
/// key occurs twice.
#[derive(Clone)]
pub struct TextMap<V> {
    slots: Vec<Slot<V>>,
}

pub open spec fn strictly_sorted(keys: Seq<Seq<char>>) -> bool {
    forall|i: int, j: int| 0 <= i < j < keys.len() ==> text_less(#[trigger] keys[i], #[trigger] keys[j])
}

impl<V: View> TextMap<V> {
    /// The keys, in increasing order.
    pub closed spec fn keys(&self) -> Seq<Seq<char>> {
        self.slots@.map_values(|s: Slot<V>| s.key@)
    }

    /// The values, in the order of their keys.
    pub closed spec fn values(&self) -> Seq<V> {
        self.slots@.map_values(|s: Slot<V>| s.value)
    }

    /// The views of the values, in the order of their keys.
    pub open spec fn vals(&self) -> Seq<V::V> {
        self.values().map_values(|v: V| v@)
    }

    /// The keys are strictly increasing.
    pub closed spec fn wf(&self) -> bool {
        strictly_sorted(self.keys())
    }

    /// The map that the entries make.
    pub open spec fn as_map(&self) -> Map<Seq<char>, V::V> {
        Map::new(|k: Seq<char>| self.keys().contains(k), |k: Seq<char>| self.value_for(k))
    }

    /// The value stored with key `k`.
    pub closed spec fn value_for(&self, k: Seq<char>) -> V::V {
        self.vals()[self.position_of(k)]
    }

    /// Where key `k` stands among the keys.
    pub closed spec fn position_of(&self, k: Seq<char>) -> int {
        choose|i: int| 0 <= i < self.keys().len() && self.keys()[i] == k
    }

    /// The keys of a well-formed map, and so the customers of a report,
    /// come in strictly increasing order, each once.
    pub proof fn lemma_keys_sorted(&self)
        requires
            self.wf(),
        ensures
            strictly_sorted(self.keys()),
            forall|i: int, j: int| 0 <= i < j < self.keys().len() ==> #[trigger] self.keys()[i] != #[trigger] self.keys()[j],
    {
        assert forall|i: int, j: int| 0 <= i < j < self.keys().len() implies #[trigger] self.keys()[i] != #[trigger] self.keys()[j] by {
            if self.keys()[i] == self.keys()[j] {
                lemma_text_less_irreflexive(self.keys()[i]);
            }
        }
    }

    /// After `insert` of `value` for `key` (whose contract gives `after`
    /// from `self`), `get` of `key` gives `value`, and every other key gives
    /// what it gave before.
    pub proof fn lemma_get_after_insert(&self, after: &Self, key: Seq<char>, value: V::V, other: Seq<char>)
        requires
            after.as_map() == self.as_map().insert(key, value),
        ensures
            after.as_map().contains_key(key),
            after.as_map()[key] == value,
            other != key ==> after.as_map().contains_key(other) == self.as_map().contains_key(other),
            other != key && self.as_map().contains_key(other) ==> after.as_map()[other] == self.as_map()[other],
    {
    }

    pub proof fn lemma_keys_vals(&self)
        ensures
            self.keys().len() == self.values().len(),
    {
    }

    /// In a well-formed map, the value stored with the `i`-th key is what the
    /// map gives for that key.
    pub proof fn lemma_lookup(&self, i: int)
        requires
            self.wf(),
            0 <= i < self.keys().len(),
        ensures
            self.as_map().contains_key(self.keys()[i]),
            self.as_map()[self.keys()[i]] == self.vals()[i],
    {
        let k = self.keys()[i];
        assert(self.keys().contains(k)) by {
            assert(self.keys()[i] == k);
        }
        let j = self.position_of(k);
        assert(0 <= j < self.keys().len() && self.keys()[j] == k);
        if j != i {
            if j < i {
                assert(text_less(self.keys()[j], self.keys()[i]));
            } else {
                assert(text_less(self.keys()[i], self.keys()[j]));
            }
            lemma_text_less_irreflexive(k);
        }
        assert(self.value_for(k) == self.vals()[j]);
        assert(self.as_map()[k] == self.value_for(k));
    }

    /// An empty map.
    pub fn new() -> (m: Self)
        ensures
            m.wf(),
            m.keys().len() == 0,
            m.values().len() == 0,
            m.as_map() == Map::<Seq<char>, V::V>::empty(),
    {
        let m = TextMap { slots: Vec::new() };
        assert(m.as_map() =~= Map::<Seq<char>, V::V>::empty());
        m
    }

    /// Whether the keys are strictly increasing (see `wf`).
    pub fn is_wf(&self) -> (b: bool)
        ensures
            b == self.wf(),
    {
        let n = self.slots.len();
        if n == 0 {
            return true;
        }
        let mut i: usize = 1;
        while i < n
            invariant
                1 <= i <= n,
                n == self.keys().len(),
                forall|j: int, k: int| 0 <= j < k < i ==> text_less(#[trigger] self.keys()[j], #[trigger] self.keys()[k]),
            decreases n - i,
        {
            let a = chars_of(self.slots[i - 1].key.as_str());
            let b = chars_of(self.slots[i].key.as_str());
            assert(a@ == self.keys()[i - 1]);
            assert(b@ == self.keys()[i as int]);
            match compare_text(a.as_slice(), b.as_slice()) {
                TextOrder::Less => {},
                _ => {
                    return false;
                },
            }
            assert forall|j: int, k: int| 0 <= j < k < i + 1 implies text_less(#[trigger] self.keys()[j], #[trigger] self.keys()[k]) by {
                if k == i && j < i - 1 {
                    lemma_text_less_order(self.keys()[j], self.keys()[i - 1], self.keys()[k]);
                }
            }
            i += 1;
        }
        true
    }

    /// The number of entries.
    pub fn len(&self) -> (n: usize)
        ensures
            n == self.keys().len(),
    {
        self.slots.len()
    }

    /// The key of the `i`-th entry in key order.
    pub fn key_at(&self, i: usize) -> (k: &String)
        requires
            i < self.keys().len(),
        ensures
            k@ == self.keys()[i as int],
    {
        &self.slots[i].key
    }

    /// The value of the `i`-th entry in key order.
    pub fn value_at(&self, i: usize) -> (v: &V)
        requires
            i < self.keys().len(),
        ensures
            *v == self.values()[i as int],
    {
        &self.slots[i].value
    }

    /// Where `key` stands: `Ok(i)` when it is the `i`-th key, `Err(i)` when it
    /// is absent and belongs at position `i`.
    pub fn search(&self, key: &[char]) -> (r: Result<usize, usize>)
        requires
            self.wf(),
        ensures
            match r {
                Ok(i) => i < self.keys().len() && self.keys()[i as int] == key@,
                Err(i) => {
                    &&& i <= self.keys().len()
                    &&& !self.keys().contains(key@)
                    &&& forall|j: int| 0 <= j < i ==> text_less(#[trigger] self.keys()[j], key@)
                    &&& forall|j: int| i <= j < self.keys().len() ==> text_less(key@, #[trigger] self.keys()[j])
                },
            },
    {
        let mut lo: usize = 0;
        let mut hi: usize = self.slots.len();
        while lo < hi
            invariant
                self.wf(),
                lo <= hi <= self.keys().len(),
                forall|j: int| 0 <= j < lo ==> text_less(#[trigger] self.keys()[j], key@),
                forall|j: int| hi <= j < self.keys().len() ==> text_less(key@, #[trigger] self.keys()[j]),
            decreases hi - lo,
        {
            let mid = lo + (hi - lo) / 2;
            let mid_chars = chars_of(self.slots[mid].key.as_str());
            match compare_text(mid_chars.as_slice(), key) {
                TextOrder::Equal => {
                    return Ok(mid);
                },
                TextOrder::Less => {
                    assert forall|j: int| 0 <= j < mid + 1 implies text_less(#[trigger] self.keys()[j], key@) by {
                        if j < mid {
                            lemma_text_less_order(self.keys()[j], self.keys()[mid as int], key@);
                        }
                    }
                    lo = mid + 1;
                },
                TextOrder::Greater => {
                    assert forall|j: int| mid <= j < self.keys().len() implies text_less(key@, #[trigger] self.keys()[j]) by {
                        if j > mid {
                            lemma_text_less_order(key@, self.keys()[mid as int], self.keys()[j]);
                        }
                    }
                    hi = mid;
                },
            }
        }
        assert(!self.keys().contains(key@)) by {
            if self.keys().contains(key@) {
                let j = choose|j: int| 0 <= j < self.keys().len() && self.keys()[j] == key@;
                lemma_text_less_order(key@, key@, key@);
            }
        }
        Err(lo)
    }

    /// The value stored for `key`, if any.
    pub fn get(&self, key: &str) -> (r: Option<&V>)
        requires
            self.wf(),
        ensures
            match r {
                Some(v) => self.as_map().contains_key(key@) && v@ == self.as_map()[key@],
                None => !self.as_map().contains_key(key@),
            },
    {
        let kc = chars_of(key);
        match self.search(kc.as_slice()) {
            Ok(i) => {
                proof { self.lemma_lookup(i as int); }
                Some(&self.slots[i].value)
            },
            Err(_) => None,
        }
    }

    /// Adds `key` with `value` at position `i`, where `search` placed it.
    pub fn insert_at(&mut self, i: usize, key: String, value: V)
        requires
            old(self).wf(),
            i <= old(self).keys().len(),
            forall|j: int| 0 <= j < i ==> text_less(#[trigger] old(self).keys()[j], key@),
            forall|j: int| i <= j < old(self).keys().len() ==> text_less(key@, #[trigger] old(self).keys()[j]),
        ensures
            final(self).wf(),
            final(self).keys() == old(self).keys().insert(i as int, key@),
            final(self).values() == old(self).values().insert(i as int, value),
            final(self).as_map() == old(self).as_map().insert(key@, value@),
    {
        let ghost old_map = self.as_map();
        self.slots.insert(i, Slot { key, value });
        assert(self.keys() =~= old(self).keys().insert(i as int, key@));
        assert(self.values() =~= old(self).values().insert(i as int, value));
        assert(self.vals() =~= old(self).vals().insert(i as int, value@));
        assert forall|a: int, b: int| 0 <= a < b < self.keys().len() implies text_less(
            #[trigger] self.keys()[a], #[trigger] self.keys()[b]) by {
            if a < i && b > i {
                lemma_text_less_order(self.keys()[a], key@, self.keys()[b]);
            }
        }
        assert(self.wf());
        assert(self.as_map() =~= old_map.insert(key@, value@)) by {
            assert forall|k: Seq<char>| #[trigger] self.as_map().contains_key(k) == old_map.insert(key@, value@).contains_key(k) by {
                if old(self).keys().contains(k) {
                    let j = choose|j: int| 0 <= j < old(self).keys().len() && old(self).keys()[j] == k;
                    if j < i {
                        assert(self.keys()[j] == k);
                    } else {
                        assert(self.keys()[j + 1] == k);
                    }
                }
                if self.keys().contains(k) && k != key@ {
                    let j = choose|j: int| 0 <= j < self.keys().len() && self.keys()[j] == k;
                    if j < i {
                        assert(old(self).keys()[j] == k);
                    } else {
                        assert(old(self).keys()[j - 1] == k);
                    }
                }
                assert(self.keys()[i as int] == key@);
            }
            assert forall|k: Seq<char>| #[trigger] self.as_map().contains_key(k) implies self.as_map()[k] == old_map.insert(key@, value@)[k] by {
                let j = choose|j: int| 0 <= j < self.keys().len() && self.keys()[j] == k;
                self.lemma_lookup(j);
                if j < i {
                    old(self).lemma_lookup(j);
                    assert(text_less(self.keys()[j], self.keys()[i as int]));
                    lemma_text_less_irreflexive(k);
                } else if j > i {
                    old(self).lemma_lookup(j - 1);
                    assert(text_less(self.keys()[i as int], self.keys()[j]));
                    lemma_text_less_irreflexive(k);
                }
            }
        }
    }

    /// Well-formedness depends on the keys alone.
    pub proof fn lemma_wf_by_keys(&self, other: &Self)
        requires
            self.wf(),
            other.keys() == self.keys(),
        ensures
            other.wf(),
    {
    }

    /// Mutable access to the value of the `i`-th entry; keys are untouched.
    pub fn value_at_mut(&mut self, i: usize) -> (v: &mut V)
        requires
            old(self).wf(),
            i < old(self).keys().len(),
        ensures
            *v == old(self).values()[i as int],
            final(self).keys() == old(self).keys(),
            final(self).values() == old(self).values().update(i as int, *final(v)),
    {
        let r = &mut self.slots[i].value;
        r
    }

    /// Stores `value` for `key`, in place of the value it had, if any.
    pub fn insert(&mut self, key: String, value: V)
        requires
            old(self).wf(),
        ensures
            final(self).wf(),
            final(self).as_map() == old(self).as_map().insert(key@, value@),
    {
        let kc = chars_of(key.as_str());
        match self.search(kc.as_slice()) {
            Ok(i) => {
                let ghost old_map = self.as_map();
                proof { self.lemma_lookup(i as int); }
                let slot = self.value_at_mut(i);
                *slot = value;
                proof {
                    old(self).lemma_wf_by_keys(&*self);
                    assert(self.vals() =~= old(self).vals().update(i as int, value@));
                    assert forall|k: Seq<char>| #[trigger] self.as_map().contains_key(k) == old_map.insert(key@, value@).contains_key(k) by {
                        assert(self.keys()[i as int] == key@);
                    }
                    assert forall|k: Seq<char>| #[trigger] self.as_map().contains_key(k) implies self.as_map()[k] == old_map.insert(key@, value@)[k] by {
                        let j = choose|j: int| 0 <= j < self.keys().len() && self.keys()[j] == k;
                        self.lemma_lookup(j);
                        old(self).lemma_lookup(j);
                        if j != i {
                            self.lemma_keys_sorted();
                            assert(self.keys()[j] != self.keys()[i as int]);
                        }
                    }
                    assert(self.as_map() =~= old_map.insert(key@, value@));
                }
            },
            Err(i) => {
                self.insert_at(i, key, value);
            },
        }
    }
}

impl TextMap<String> {
    /// A copy of the map.
    pub fn duplicate(&self) -> (m: Self)
        requires
            self.wf(),
        ensures
            m.wf(),
            m.keys() == self.keys(),
            m.vals() == self.vals(),
            m.as_map() == self.as_map(),
    {
        let mut slots: Vec<Slot<String>> = Vec::new();
        let mut i: usize = 0;
        while i < self.slots.len()
            invariant
                i <= self.slots@.len(),
                slots@.len() == i,
                forall|j: int| 0 <= j < i ==> (#[trigger] slots@[j]).key@ == self.slots@[j].key@
                    && slots@[j].value@ == self.slots@[j].value@,
            decreases self.slots@.len() - i,
        {
            let s = &self.slots[i];
            slots.push(Slot { key: s.key.clone(), value: s.value.clone() });
            i += 1;
        }
        let m = TextMap { slots };
        assert(m.keys() =~= self.keys());
        assert(m.vals() =~= self.vals());
        assert(m.as_map() =~= self.as_map());
        m
    }
}

} // verus!
