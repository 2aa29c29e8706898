//! A map from interned codes to values, kept as two parallel arrays sorted by
//! key, and the binary search that reads it.

use crate::intern::Interned;
use vstd::prelude::*;

verus! {

/// Keys in strictly ascending order: sorted, and none twice.
pub open spec fn strictly_ascending(s: Seq<u64>) -> bool {
    forall|i: int, j: int| 0 <= i < j < s.len() ==> s[i] < s[j]
}

/// The place of `key` in a sorted key array: the first position whose key is
/// not below `key`, or the length where every key is below it.
pub open spec fn lower_index(keys: Seq<u64>, key: u64) -> int
    decreases keys.len(),
{
    if keys.len() == 0 {
        0
    } else if keys.last() < key {
        keys.len() as int
    } else {
        lower_index(keys.drop_last(), key)
    }
}

/// The key array after `key` is stored: unchanged where it holds `key`, and
/// with `key` put in at its place where it does not.
pub open spec fn stored_keys(keys: Seq<u64>, key: u64) -> Seq<u64> {
    let i = lower_index(keys, key);
    if i < keys.len() && keys[i] == key {
        keys
    } else {
        keys.insert(i, key)
    }
}

/// The value array after `value` is stored under `key`: `value` stands at the
/// position of `key`, in place of the old value or between its neighbours.
pub open spec fn stored_values<V>(keys: Seq<u64>, values: Seq<V>, key: u64, value: V) -> Seq<V> {
    let i = lower_index(keys, key);
    if i < keys.len() && keys[i] == key {
        values.update(i, value)
    } else {
        values.insert(i, value)
    }
}

/// The value that sorted arrays bind `key` to, if any.
pub open spec fn lookup<V>(keys: Seq<u64>, values: Seq<V>, key: u64) -> Option<V> {
    let i = lower_index(keys, key);
    if i < keys.len() && keys[i] == key {
        Some(values[i])
    } else {
        None
    }
}

/// The place of a key is the one position that parts the smaller keys from
/// the rest.
pub proof fn lemma_lower_index(keys: Seq<u64>, key: u64, idx: int)
    requires
        strictly_ascending(keys),
        0 <= idx <= keys.len(),
        forall|j: int| 0 <= j < idx ==> keys[j] < key,
        forall|j: int| idx <= j < keys.len() ==> key <= keys[j],
    ensures
        lower_index(keys, key) == idx,
    decreases keys.len(),
{
    if keys.len() > 0 {
        if keys.last() < key {
            if idx < keys.len() {
                assert(key <= keys[keys.len() - 1]);
            }
        } else {
            if idx == keys.len() {
                assert(keys[idx - 1] < key);
            }
            let rest = keys.drop_last();
            assert(strictly_ascending(rest)) by {
                assert forall|i: int, j: int| 0 <= i < j < rest.len() implies rest[i] < rest[j] by {
                    assert(keys[i] < keys[j]);
                }
            }
            assert forall|j: int| 0 <= j < idx implies rest[j] < key by {
                assert(keys[j] < key);
            }
            assert forall|j: int| idx <= j < rest.len() implies key <= rest[j] by {
                assert(key <= keys[j]);
            }
            lemma_lower_index(rest, key, idx);
        }
    }
}

/// What the place of a key says of its neighbours.
pub proof fn lemma_lower_index_parts(keys: Seq<u64>, key: u64)
    requires
        strictly_ascending(keys),
    ensures
        0 <= lower_index(keys, key) <= keys.len(),
        forall|j: int| 0 <= j < lower_index(keys, key) ==> keys[j] < key,
        forall|j: int| lower_index(keys, key) <= j < keys.len() ==> key <= keys[j],
    decreases keys.len(),
{
    if keys.len() > 0 {
        if keys.last() < key {
            assert forall|j: int| 0 <= j < keys.len() implies keys[j] < key by {
                if j < keys.len() - 1 {
                    assert(keys[j] < keys[keys.len() - 1]);
                }
            }
        } else {
            let rest = keys.drop_last();
            assert(strictly_ascending(rest)) by {
                assert forall|i: int, j: int| 0 <= i < j < rest.len() implies rest[i] < rest[j] by {
                    assert(keys[i] < keys[j]);
                }
            }
            lemma_lower_index_parts(rest, key);
            let idx = lower_index(rest, key);
            assert forall|j: int| 0 <= j < idx implies keys[j] < key by {
                assert(rest[j] < key);
            }
            assert forall|j: int| idx <= j < keys.len() implies key <= keys[j] by {
                if j < rest.len() {
                    assert(key <= rest[j]);
                }
            }
        }
    }
}

/// Sorted-map ordering: storing keeps the keys strictly ascending and the
/// arrays of one length; the stored key is then bound to the stored value,
/// and every other key to what it was bound to before.
pub proof fn lemma_store<V>(keys: Seq<u64>, values: Seq<V>, key: u64, value: V)
    requires
        strictly_ascending(keys),
        keys.len() == values.len(),
    ensures
        strictly_ascending(stored_keys(keys, key)),
        stored_keys(keys, key).len() == stored_values(keys, values, key, value).len(),
        lookup(stored_keys(keys, key), stored_values(keys, values, key, value), key) == Some(
            value,
        ),
        forall|other: u64|
            other != key ==> lookup(
                stored_keys(keys, key),
                stored_values(keys, values, key, value),
                other,
            ) == lookup(keys, values, other),
{
    lemma_lower_index_parts(keys, key);
    let i = lower_index(keys, key);
    let new_keys = stored_keys(keys, key);
    let new_values = stored_values(keys, values, key, value);
    if i < keys.len() && keys[i] == key {
        assert forall|other: u64| other != key implies lookup(new_keys, new_values, other)
            == lookup(keys, values, other) by {
            lemma_lower_index_parts(keys, other);
        }
    } else {
        assert(strictly_ascending(new_keys)) by {
            assert forall|a: int, b: int| 0 <= a < b < new_keys.len() implies new_keys[a]
                < new_keys[b] by {
                let x = if a < i {
                    a
                } else {
                    a - 1
                };
                let y = if b < i {
                    b
                } else {
                    b - 1
                };
                if a != i && b != i {
                    assert(keys[x] < keys[y]);
                }
            }
        }
        assert forall|j: int| 0 <= j < i implies new_keys[j] < key by {
            assert(keys[j] < key);
        }
        assert forall|j: int| i <= j < new_keys.len() implies key <= new_keys[j] by {
            if j > i {
                assert(key <= keys[j - 1]);
            }
        }
        lemma_lower_index(new_keys, key, i);
        assert forall|other: u64| other != key implies lookup(new_keys, new_values, other)
            == lookup(keys, values, other) by {
            lemma_lower_index_parts(keys, other);
            let o = lower_index(keys, other);
            let o2 = if other < key {
                o
            } else {
                o + 1
            };
            assert forall|j: int| 0 <= j < o2 implies new_keys[j] < other by {
                if j < i {
                    assert(keys[j] < other || keys[j] < key);
                    if !(keys[j] < other) {
                        assert(o <= j);
                    }
                } else if j > i {
                    assert(keys[j - 1] < other);
                }
            }
            assert forall|j: int| o2 <= j < new_keys.len() implies other <= new_keys[j] by {
                if j < i {
                    assert(other <= keys[j]);
                } else if j > i {
                    assert(other <= keys[j - 1]);
                }
            }
            lemma_lower_index(new_keys, other, o2);
        }
    }
}

/// The arrays after a sequence of stores, the first of the sequence first.
pub open spec fn store_all<V>(keys: Seq<u64>, values: Seq<V>, ops: Seq<(u64, V)>) -> (
    Seq<u64>,
    Seq<V>,
)
    decreases ops.len(),
{
    if ops.len() == 0 {
        (keys, values)
    } else {
        let (k, v) = store_all(keys, values, ops.drop_last());
        (stored_keys(k, ops.last().0), stored_values(k, v, ops.last().0, ops.last().1))
    }
}

/// The value that the last store under `key` in a sequence of stores stored.
pub open spec fn last_stored<V>(ops: Seq<(u64, V)>, key: u64) -> Option<V>
    decreases ops.len(),
{
    if ops.len() == 0 {
        None
    } else if ops.last().0 == key {
        Some(ops.last().1)
    } else {
        last_stored(ops.drop_last(), key)
    }
}

/// Sorted-map ordering, for any sequence of stores: after the sequence (and
/// so after each of its stores, since every start of a sequence is one) the
/// keys are strictly ascending and the arrays of one length, and a key is
/// bound to the value stored under it last, or, if none was, to what it was
/// bound to before.
pub proof fn lemma_store_all<V>(keys: Seq<u64>, values: Seq<V>, ops: Seq<(u64, V)>)
    requires
        strictly_ascending(keys),
        keys.len() == values.len(),
    ensures
        strictly_ascending(store_all(keys, values, ops).0),
        store_all(keys, values, ops).0.len() == store_all(keys, values, ops).1.len(),
        forall|key: u64|
            lookup(store_all(keys, values, ops).0, store_all(keys, values, ops).1, key) == (
            match last_stored(ops, key) {
                Some(v) => Some(v),
                None => lookup(keys, values, key),
            }),
    decreases ops.len(),
{
    if ops.len() > 0 {
        lemma_store_all(keys, values, ops.drop_last());
        let (k, v) = store_all(keys, values, ops.drop_last());
        let (k2, v2) = store_all(keys, values, ops);
        lemma_store(k, v, ops.last().0, ops.last().1);
        assert forall|key: u64| lookup(k2, v2, key) == (match last_stored(ops, key) {
            Some(v) => Some(v),
            None => lookup(keys, values, key),
        }) by {
            if key != ops.last().0 {
                assert(lookup(k2, v2, key) == lookup(k, v, key));
            }
        }
    }
}

/// The first position of a sorted key array whose key is not below `key`.
pub fn lower_bound(key: u64, elements: &[u64]) -> (idx: usize)
    requires
        strictly_ascending(elements@),
    ensures
        idx <= elements@.len(),
        forall|j: int| 0 <= j < idx ==> elements@[j] < key,
        forall|j: int| idx <= j < elements@.len() ==> key <= elements@[j],
        idx == lower_index(elements@, key),
{
    let mut lo: usize = 0;
    let mut hi: usize = elements.len();
    while lo < hi
        invariant
            lo <= hi <= elements@.len(),
            strictly_ascending(elements@),
            forall|j: int| 0 <= j < lo ==> elements@[j] < key,
            forall|j: int| hi <= j < elements@.len() ==> key <= elements@[j],
        decreases hi - lo,
    {
        let mid = lo + (hi - lo) / 2;
        if elements[mid] < key {
            lo = mid + 1;
        } else {
            hi = mid;
        }
    }
    proof {
        lemma_lower_index(elements@, key, lo as int);
    }
    lo
}

/// A guess at the position of `key`: the one position at which a sorted
/// array can hold it. Its key is not above `key`, unless it is the first
/// position, and every key behind it is above `key`.
pub open spec fn is_guess(elements: Seq<u64>, key: u64, guess: int) -> bool {
    &&& 0 <= guess < elements.len()
    &&& guess == 0 || elements[guess] <= key
    &&& forall|j: int| guess < j < elements.len() ==> key < elements[j]
}

/// A sorted array holds `key` at the guessed position or not at all.
pub proof fn lemma_guess(elements: Seq<u64>, key: u64, guess: int)
    requires
        strictly_ascending(elements),
        is_guess(elements, key, guess),
    ensures
        elements.contains(key) ==> elements[guess] == key,
{
    if elements.contains(key) {
        let i = elements.index_of(key);
        if i < guess {
            assert(elements[i] < elements[guess]);
        }
    }
}

/// A power of two.
pub open spec fn is_pow2(n: int) -> bool
    decreases n,
{
    n == 1 || (n > 1 && n % 2 == 0 && is_pow2(n / 2))
}

/// Guesses the position of `key` in a sorted array of three or more keys, by
/// halving steps whose number depends on the length alone. `half` is the
/// largest power of two below the length: the first step tells which `half`
/// keys to look at, the first or the last, and each later step halves them.
pub fn search_n(key: u64, elements: &[u64]) -> (guess: usize)
    requires
        strictly_ascending(elements@),
        elements@.len() >= 3,
    ensures
        is_guess(elements@, key, guess as int),
{
    let len = elements.len();
    let mut half: usize = 2;
    proof {
        assert(is_pow2(1));
        assert(is_pow2(2));
    }
    while half < len - half
        invariant
            len == elements@.len(),
            2 <= half < len,
            is_pow2(half as int),
        decreases len - half,
    {
        half = half * 2;
    }
    let mut ret: usize = if key >= elements[half] {
        len - half
    } else {
        0
    };
    let mut pow: usize = half / 2;
    while pow > 0
        invariant
            len == elements@.len(),
            strictly_ascending(elements@),
            pow == 0 || is_pow2(pow as int),
            ret + 2 * pow <= len,
            pow == 0 ==> ret + 1 <= len,
            ret == 0 || elements@[ret as int] <= key,
            forall|j: int|
                ret + (if pow == 0 {
                    1
                } else {
                    2 * pow as int
                }) <= j < len ==> key < elements@[j],
        decreases pow,
    {
        if key >= elements[ret + pow] {
            ret = ret + pow;
        } else {
            assert forall|j: int| ret + pow <= j < len implies key < elements@[j] by {
                if j > ret + pow {
                    assert(elements@[ret + pow] < elements@[j]);
                }
            }
        }
        pow = pow / 2;
    }
    ret
}

/// Guesses the position of `key` in a sorted array of 17 to 32 keys, in five steps.
pub fn search32(key: u64, elements: &[u64]) -> (guess: usize)
    requires
        strictly_ascending(elements@),
        17 <= elements@.len() <= 32,
    ensures
        is_guess(elements@, key, guess as int),
{
    let len = elements.len();
    let first = len - 16;
    let mut ret: usize = if key >= elements[16] {
        first
    } else {
        0
    };
    proof {
        lemma_window(elements@, key, ret as int, 16);
    }
    ret = step(key, elements, ret, 8);
    ret = step(key, elements, ret, 4);
    ret = step(key, elements, ret, 2);
    ret = step(key, elements, ret, 1);
    ret
}

/// Guesses the position of `key` in a sorted array of 9 to 16 keys, in four steps.
pub fn search16(key: u64, elements: &[u64]) -> (guess: usize)
    requires
        strictly_ascending(elements@),
        9 <= elements@.len() <= 16,
    ensures
        is_guess(elements@, key, guess as int),
{
    let len = elements.len();
    let first = len - 8;
    let mut ret: usize = if key >= elements[8] {
        first
    } else {
        0
    };
    proof {
        lemma_window(elements@, key, ret as int, 8);
    }
    ret = step(key, elements, ret, 4);
    ret = step(key, elements, ret, 2);
    ret = step(key, elements, ret, 1);
    ret
}

/// Guesses the position of `key` in a sorted array of 5 to 8 keys, in three steps.
pub fn search8(key: u64, elements: &[u64]) -> (guess: usize)
    requires
        strictly_ascending(elements@),
        5 <= elements@.len() <= 8,
    ensures
        is_guess(elements@, key, guess as int),
{
    let len = elements.len();
    let first = len - 4;
    let mut ret: usize = if key >= elements[4] {
        first
    } else {
        0
    };
    proof {
        lemma_window(elements@, key, ret as int, 4);
    }
    ret = step(key, elements, ret, 2);
    ret = step(key, elements, ret, 1);
    ret
}

/// The position of `key` lies in the window of `width` keys that starts at
/// `ret`: no key from the window's start on back is above it, unless the
/// window starts at the front, and every key behind the window is.
pub open spec fn in_window(elements: Seq<u64>, key: u64, ret: int, width: int) -> bool {
    &&& 0 <= ret
    &&& ret + width <= elements.len()
    &&& ret == 0 || elements[ret] <= key
    &&& forall|j: int| ret + width <= j < elements.len() ==> key < elements[j]
}

/// The first step of a search leaves the position in a window of `half` keys.
proof fn lemma_window(elements: Seq<u64>, key: u64, ret: int, half: int)
    requires
        strictly_ascending(elements),
        0 < half < elements.len() <= 2 * half,
        ret == (if key >= elements[half] {
            elements.len() - half
        } else {
            0
        }),
    ensures
        in_window(elements, key, ret, half),
{
    if key >= elements[half] {
        if ret < half {
            assert(elements[ret] < elements[half]);
        }
    } else {
        assert forall|j: int| half <= j < elements.len() implies key < elements[j] by {
            if j > half {
                assert(elements[half] < elements[j]);
            }
        }
    }
}

/// One halving step: from a window of `2 * pow` keys to one of `pow`.
fn step(key: u64, elements: &[u64], ret: usize, pow: usize) -> (next: usize)
    requires
        strictly_ascending(elements@),
        pow >= 1,
        in_window(elements@, key, ret as int, 2 * pow),
    ensures
        in_window(elements@, key, next as int, pow as int),
        pow == 1 ==> is_guess(elements@, key, next as int),
{
    let len = elements.len();
    if key >= elements[ret + pow] {
        ret + pow
    } else {
        assert forall|j: int| ret + pow <= j < elements@.len() implies key < elements@[j] by {
            if j > ret + pow {
                assert(elements@[ret + pow] < elements@[j]);
            }
        }
        ret
    }
}

/// Guesses the position of `key` in an array of at most four keys by
/// looking at one key after the other; the first position where it finds none.
fn search4(key: u64, elements: &[u64]) -> (guess: usize)
    requires
        strictly_ascending(elements@),
        1 <= elements@.len() <= 4,
    ensures
        guess < elements@.len(),
        elements@.contains(key) ==> elements@[guess as int] == key,
{
    let mut i: usize = 0;
    while i < elements.len()
        invariant
            i <= elements@.len(),
            forall|j: int| 0 <= j < i ==> elements@[j] != key,
        decreases elements@.len() - i,
    {
        if elements[i] == key {
            return i;
        }
        i += 1;
    }
    0
}

/// Finds `key` in a sorted key array: its position, or `None` where the
/// array does not hold it. The length of the array picks the routine that
/// guesses the position; the guess is then held against the key.
pub fn search(key: u64, elements: &[u64]) -> (found: Option<usize>)
    requires
        strictly_ascending(elements@),
    ensures
        match found {
            Some(i) => i < elements@.len() && elements@[i as int] == key,
            None => !elements@.contains(key),
        },
{
    let len = elements.len();
    if len == 0 {
        return None;
    }
    let guess = if len <= 4 {
        search4(key, elements)
    } else if len <= 8 {
        search8(key, elements)
    } else if len <= 16 {
        search16(key, elements)
    } else if len <= 32 {
        search32(key, elements)
    } else {
        search_n(key, elements)
    };
    proof {
        if len > 4 {
            lemma_guess(elements@, key, guess as int);
        }
    }
    if elements[guess] == key {
        Some(guess)
    } else {
        None
    }
}

/// A map keyed by interned codes. Keys and values stand in two arrays of the
/// same length, a value at the position of its key.
pub struct InternedMap<T> {
    keys: Vec<u64>,
    values: Vec<T>,
}

impl<T> InternedMap<T> {
    /// The key array.
    pub closed spec fn key_seq(&self) -> Seq<u64> {
        self.keys@
    }

    /// The value array.
    pub closed spec fn value_seq(&self) -> Seq<T> {
        self.values@
    }

    /// The arrays match in length and the keys ascend strictly.
    pub open spec fn wf(&self) -> bool {
        &&& self.key_seq().len() == self.value_seq().len()
        &&& strictly_ascending(self.key_seq())
    }

    /// The position of a key that the map holds.
    pub open spec fn position(&self, key: u64) -> int {
        self.key_seq().index_of(key)
    }

    /// The map as a mathematical map from key to value.
    pub open spec fn view(&self) -> Map<u64, T> {
        Map::new(
            |k: u64| self.key_seq().contains(k),
            |k: u64| self.value_seq()[self.key_seq().index_of(k)],
        )
    }

    /// In a well-formed map a key stands at one position only.
    pub proof fn lemma_position(&self, i: int)
        requires
            self.wf(),
            0 <= i < self.key_seq().len(),
        ensures
            self.position(self.key_seq()[i]) == i,
            self@.dom().contains(self.key_seq()[i]),
            self@[self.key_seq()[i]] == self.value_seq()[i],
    {
        let k = self.key_seq()[i];
        assert(self.key_seq().contains(k));
        let j = self.key_seq().index_of(k);
        if j < i {
            assert(self.key_seq()[j] < self.key_seq()[i]);
        } else if i < j {
            assert(self.key_seq()[i] < self.key_seq()[j]);
        }
    }

    /// A map without entries.
    pub fn new() -> (map: Self)
        ensures
            map.wf(),
            map@ == Map::<u64, T>::empty(),
            map.key_seq().len() == 0,
    {
        let map = InternedMap { keys: Vec::new(), values: Vec::new() };
        assert(map@ =~= Map::<u64, T>::empty());
        map
    }

    /// The number of entries.
    pub fn len(&self) -> (n: usize)
        requires
            self.wf(),
        ensures
            n == self.key_seq().len(),
            n == self@.dom().len(),
            self@.dom().finite(),
    {
        proof {
            self.lemma_dom_len();
        }
        self.keys.len()
    }

    /// The map has as many entries as its key array has keys.
    pub proof fn lemma_dom_len(&self)
        requires
            self.wf(),
        ensures
            self@.dom().finite(),
            self@.dom().len() == self.key_seq().len(),
    {
        let keys = self.key_seq();
        assert(keys.no_duplicates()) by {
            assert forall|i: int, j: int| 0 <= i < keys.len() && 0 <= j < keys.len() && i != j implies keys[i] != keys[j] by {
                if i < j {
                    assert(keys[i] < keys[j]);
                } else {
                    assert(keys[j] < keys[i]);
                }
            }
        }
        keys.unique_seq_to_set();
        assert(self@.dom() =~= keys.to_set());
    }

    /// The key array, in ascending order.
    pub fn keys(&self) -> (keys: &Vec<u64>)
        ensures
            keys@ == self.key_seq(),
    {
        &self.keys
    }

    /// The value array, each value at the position of its key.
    pub fn values(&self) -> (values: &Vec<T>)
        ensures
            values@ == self.value_seq(),
    {
        &self.values
    }

    /// The value bound to `key`, if any.
    pub fn get(&self, key: Interned) -> (value: Option<&T>)
        requires
            self.wf(),
        ensures
            match value {
                Some(v) => self@.dom().contains(key.0) && *v == self@[key.0],
                None => !self@.dom().contains(key.0),
            },
            match value {
                Some(v) => lookup(self.key_seq(), self.value_seq(), key.0) == Some(*v),
                None => lookup(self.key_seq(), self.value_seq(), key.0).is_none(),
            },
    {
        proof {
            lemma_lower_index_parts(self.key_seq(), key.0);
        }
        match search(key.0, self.keys.as_slice()) {
            Some(i) => {
                proof {
                    self.lemma_position(i as int);
                }
                Some(&self.values[i])
            },
            None => None,
        }
    }

    /// The value bound to `key`, if any, for writing. What the caller leaves
    /// there is what the map binds `key` to afterwards.
    pub fn get_mut(&mut self, key: Interned) -> (value: Option<&mut T>)
        requires
            old(self).wf(),
        ensures
            match value {
                Some(v) => {
                    &&& old(self)@.dom().contains(key.0)
                    &&& *v == old(self)@[key.0]
                    &&& final(self).wf()
                    &&& final(self).key_seq() == old(self).key_seq()
                    &&& final(self)@ == old(self)@.insert(key.0, *final(v))
                },
                None => !old(self)@.dom().contains(key.0) && *final(self) == *old(self),
            },
    {
        let ghost before = *self;
        match search(key.0, self.keys.as_slice()) {
            Some(i) => {
                proof {
                    before.lemma_position(i as int);
                }
                let slot = &mut self.values[i];
                proof {
                    let after = InternedMap {
                        keys: before.keys,
                        values: after_borrow(self.values),
                    };
                    after.lemma_replaced(before, i as int);
                }
                Some(slot)
            },
            None => None,
        }
    }

    /// Tells whether the map binds `key`.
    pub fn contains_key(&self, key: Interned) -> (found: bool)
        requires
            self.wf(),
        ensures
            found == self@.dom().contains(key.0),
    {
        search(key.0, self.keys.as_slice()).is_some()
    }

    /// Binds `key` to `value` and returns the value it was bound to before,
    /// if any. A new key goes in at its place in the order; the keys and
    /// values behind it move up by one.
    pub fn insert(&mut self, key: Interned, value: T) -> (previous: Option<T>)
        requires
            old(self).wf(),
        ensures
            final(self).wf(),
            final(self)@ == old(self)@.insert(key.0, value),
            previous == (if old(self)@.dom().contains(key.0) {
                Some(old(self)@[key.0])
            } else {
                None
            }),
            final(self).key_seq() == stored_keys(old(self).key_seq(), key.0),
            final(self).value_seq() == stored_values(
                old(self).key_seq(),
                old(self).value_seq(),
                key.0,
                value,
            ),
            previous == lookup(old(self).key_seq(), old(self).value_seq(), key.0),
    {
        let ghost before = *self;
        let idx = lower_bound(key.0, self.keys.as_slice());
        if idx < self.keys.len() && self.keys[idx] == key.0 {
            let mut value = value;
            proof {
                before.lemma_position(idx as int);
            }
            core::mem::swap(&mut self.values[idx], &mut value);
            proof {
                self.lemma_replaced(before, idx as int);
            }
            Some(value)
        } else {
            proof {
                assert(!before.key_seq().contains(key.0)) by {
                    if before.key_seq().contains(key.0) {
                        let j = before.key_seq().index_of(key.0);
                        assert(before.key_seq()[j] == key.0);
                    }
                }
            }
            self.keys.insert(idx, key.0);
            self.values.insert(idx, value);
            proof {
                self.lemma_inserted(before, idx as int, key.0, value);
            }
            None
        }
    }

    /// Takes the binding of `key` out of the map and returns the value it was
    /// bound to, if any. The keys and values behind it move down by one.
    pub fn remove(&mut self, key: Interned) -> (previous: Option<T>)
        requires
            old(self).wf(),
        ensures
            final(self).wf(),
            final(self)@ == old(self)@.remove(key.0),
            previous == lookup(old(self).key_seq(), old(self).value_seq(), key.0),
            previous == (if old(self)@.dom().contains(key.0) {
                Some(old(self)@[key.0])
            } else {
                None
            }),
    {
        let ghost before = *self;
        proof {
            lemma_lower_index_parts(self.key_seq(), key.0);
        }
        match search(key.0, self.keys.as_slice()) {
            Some(i) => {
                proof {
                    before.lemma_position(i as int);
                    lemma_lower_index(before.key_seq(), key.0, i as int);
                }
                let _ = self.keys.remove(i);
                let previous = self.values.remove(i);
                proof {
                    self.lemma_removed(before, i as int);
                }
                Some(previous)
            },
            None => {
                proof {
                    assert(self@ =~= before@.remove(key.0));
                }
                None
            },
        }
    }

    /// What taking a key and its value out does to the map.
    proof fn lemma_removed(&self, before: Self, idx: int)
        requires
            before.wf(),
            0 <= idx < before.key_seq().len(),
            self.key_seq() == before.key_seq().remove(idx),
            self.value_seq() == before.value_seq().remove(idx),
        ensures
            self.wf(),
            self@ == before@.remove(before.key_seq()[idx]),
    {
        let old_keys = before.key_seq();
        let new_keys = self.key_seq();
        let key = old_keys[idx];
        assert forall|i: int, j: int| 0 <= i < j < new_keys.len() implies new_keys[i]
            < new_keys[j] by {
            let a = if i < idx {
                i
            } else {
                i + 1
            };
            let b = if j < idx {
                j
            } else {
                j + 1
            };
            assert(old_keys[a] < old_keys[b]);
        }
        assert forall|k: u64| new_keys.contains(k) <==> (k != key && old_keys.contains(k)) by {
            if new_keys.contains(k) {
                let j = new_keys.index_of(k);
                if j < idx {
                    assert(old_keys[j] == k);
                    assert(old_keys[j] < old_keys[idx]);
                } else {
                    assert(old_keys[j + 1] == k);
                    assert(old_keys[idx] < old_keys[j + 1]);
                }
            }
            if k != key && old_keys.contains(k) {
                let j = old_keys.index_of(k);
                if j < idx {
                    assert(new_keys[j] == k);
                } else {
                    assert(new_keys[j - 1] == k);
                }
            }
        }
        assert forall|k: u64| self@.dom().contains(k) implies #[trigger] self@[k] == before@.remove(
            key,
        )[k] by {
            let j = new_keys.index_of(k);
            self.lemma_position(j);
            if j < idx {
                before.lemma_position(j);
            } else {
                before.lemma_position(j + 1);
            }
        }
        assert(self@ =~= before@.remove(key));
    }

    /// What replacing the value at one position does to the map.
    proof fn lemma_replaced(&self, before: Self, idx: int)
        requires
            before.wf(),
            0 <= idx < before.key_seq().len(),
            self.key_seq() == before.key_seq(),
            self.value_seq().len() == before.value_seq().len(),
            forall|j: int|
                0 <= j < before.value_seq().len() && j != idx ==> self.value_seq()[j]
                    == before.value_seq()[j],
        ensures
            self.wf(),
            self@ == before@.insert(before.key_seq()[idx], self.value_seq()[idx]),
    {
        let key = before.key_seq()[idx];
        assert forall|k: u64| self@.dom().contains(k) implies #[trigger] self@[k] == before@.insert(
            key,
            self.value_seq()[idx],
        )[k] by {
            let j = self.key_seq().index_of(k);
            self.lemma_position(j);
            before.lemma_position(j);
            before.lemma_position(idx);
        }
        assert(self.key_seq().contains(key));
        assert(self@ =~= before@.insert(key, self.value_seq()[idx]));
    }

    /// What putting a new key and its value in at the key's place does to the map.
    proof fn lemma_inserted(&self, before: Self, idx: int, key: u64, value: T)
        requires
            before.wf(),
            0 <= idx <= before.key_seq().len(),
            forall|j: int| 0 <= j < idx ==> before.key_seq()[j] < key,
            forall|j: int| idx <= j < before.key_seq().len() ==> key < before.key_seq()[j],
            self.key_seq() == before.key_seq().insert(idx, key),
            self.value_seq() == before.value_seq().insert(idx, value),
        ensures
            self.wf(),
            self@ == before@.insert(key, value),
    {
        let old_keys = before.key_seq();
        let new_keys = self.key_seq();
        assert forall|i: int, j: int| 0 <= i < j < new_keys.len() implies new_keys[i]
            < new_keys[j] by {
            let a = if i < idx { i } else { i - 1 };
            let b = if j < idx { j } else { j - 1 };
            if i != idx && j != idx {
                assert(old_keys[a] < old_keys[b]);
            }
        }
        assert forall|k: u64| new_keys.contains(k) <==> (k == key || old_keys.contains(k)) by {
            if new_keys.contains(k) {
                let j = new_keys.index_of(k);
                if j < idx {
                    assert(old_keys[j] == k);
                } else if j > idx {
                    assert(old_keys[j - 1] == k);
                }
            }
            if old_keys.contains(k) {
                let j = old_keys.index_of(k);
                if j < idx {
                    assert(new_keys[j] == k);
                } else {
                    assert(new_keys[j + 1] == k);
                }
            }
            if k == key {
                assert(new_keys[idx] == k);
            }
        }
        assert forall|k: u64| self@.dom().contains(k) implies #[trigger] self@[k] == before@.insert(
            key,
            value,
        )[k] by {
            let j = new_keys.index_of(k);
            self.lemma_position(j);
            if j < idx {
                before.lemma_position(j);
            } else if j > idx {
                before.lemma_position(j - 1);
            }
        }
        assert(self@ =~= before@.insert(key, value));
    }
}

} // verus!
