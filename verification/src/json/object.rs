//! The keyed map of the value tree.
use super::drop::{dismantle_object, slot_mut, take_all};
use super::tree::{distinct_keys, entries, holds, keyed, Tree};
use super::value::Value;
use crate::de::{MapHandle, Place, Refused, Visitor};
use crate::error::Error;
use crate::ser::{Empty, Fragment, MapIter, Shape};
use std::borrow::Cow;
use vstd::prelude::*;
use vstd::std_specs::iter::IteratorSpec;

verus! {

/// A map from string keys to values that keeps its entries in the order in
/// which their keys were first inserted. No key occurs twice.
pub struct Object {
    inner: Vec<(String, Value)>,
}

/// The index of the entry of `key`, or the number of entries where there is
/// none.
pub open spec fn position(entries: Seq<(Seq<char>, Tree)>, key: Seq<char>) -> int
    decreases entries.len(),
{
    if entries.len() == 0 {
        0
    } else if entries[0].0 == key {
        0
    } else {
        1 + position(entries.drop_first(), key)
    }
}

/// The entries after `key` was given `tree`: in place where the key had an
/// entry, at the end where it had none.
pub open spec fn put(entries: Seq<(Seq<char>, Tree)>, key: Seq<char>, tree: Tree) -> Seq<
    (Seq<char>, Tree),
> {
    let at = position(entries, key);
    if at < entries.len() {
        entries.update(at, (key, tree))
    } else {
        entries.push((key, tree))
    }
}

/// The entries without the one of `key`, where it has one.
pub open spec fn without(entries: Seq<(Seq<char>, Tree)>, key: Seq<char>) -> Seq<
    (Seq<char>, Tree),
> {
    let at = position(entries, key);
    if at < entries.len() {
        entries.remove(at)
    } else {
        entries
    }
}

/// `position` is the first index at which the key stands.
pub proof fn lemma_position(entries: Seq<(Seq<char>, Tree)>, key: Seq<char>)
    ensures
        0 <= position(entries, key) <= entries.len(),
        position(entries, key) < entries.len() ==> entries[position(entries, key)].0 == key,
        forall|i: int| 0 <= i < position(entries, key) ==> (#[trigger] entries[i]).0 != key,
    decreases entries.len(),
{
    if entries.len() > 0 && entries[0].0 != key {
        let rest = entries.drop_first();
        lemma_position(rest, key);
        assert forall|i: int| 0 <= i < position(entries, key) implies (#[trigger] entries[i]).0
            != key by {
            if i > 0 {
                assert(entries[i] == rest[i - 1]);
            }
        }
    }
}

/// Giving a key a tree keeps the keys distinct.
pub proof fn lemma_put_distinct(entries: Seq<(Seq<char>, Tree)>, key: Seq<char>, tree: Tree)
    requires
        distinct_keys(entries),
    ensures
        distinct_keys(put(entries, key, tree)),
{
    lemma_position(entries, key);
    let at = position(entries, key);
    let after = put(entries, key, tree);
    assert forall|i: int, j: int| 0 <= i < j < after.len() implies (#[trigger] after[i]).0 != (
    #[trigger] after[j]).0 by {
        if at < entries.len() {
            if i == at {
                assert(entries[at].0 != entries[j].0);
            } else if j == at {
                assert(entries[i].0 != entries[at].0);
            } else {
                assert(entries[i].0 != entries[j].0);
            }
        } else {
            if j == entries.len() {
                assert(entries[i].0 != key);
            } else {
                assert(entries[i].0 != entries[j].0);
            }
        }
    }
}

impl View for Object {
    type V = Seq<(Seq<char>, Tree)>;

    closed spec fn view(&self) -> Seq<(Seq<char>, Tree)>
        decreases self,
    {
        Seq::new(
            self.inner@.len(),
            |i: int|
                if 0 <= i < self.inner@.len() {
                    (self.inner@[i].0@, self.inner@[i].1@)
                } else {
                    (Seq::empty(), Tree::Null)
                },
        )
    }
}

/// Releasing an object releases everything below it without a call for each
/// level of nesting, and leaves the object empty.
impl Drop for Object {
    fn drop(&mut self)
        ensures
            final(self)@ == Seq::<(Seq<char>, Tree)>::empty(),
        opens_invariants none
        no_unwind
    {
        dismantle_object(self);
    }
}

impl IntoIterator for Object {
    type Item = (String, Value);

    type IntoIter = std::vec::IntoIter<(String, Value)>;

    /// The entries of the object, handed out in their order.
    fn into_iter(self) -> (pairs: std::vec::IntoIter<(String, Value)>)
        ensures
            entries(IteratorSpec::remaining(&pairs)) == self@,
    {
        self.into_vec().into_iter()
    }
}

impl<'a> IntoIterator for &'a Object {
    type Item = &'a (String, Value);

    type IntoIter = std::slice::Iter<'a, (String, Value)>;

    /// The entries of the object, borrowed and handed out in their order.
    fn into_iter(self) -> (pairs: std::slice::Iter<'a, (String, Value)>)
        ensures
            entries(IteratorSpec::remaining(&pairs).unref()) == self@,
    {
        assert(self@ =~= entries(self.inner@));
        self.inner.as_slice().iter()
    }
}

impl Default for Object {
    /// The default object has no entries.
    fn default() -> (object: Object)
        ensures
            object@ == Seq::<(Seq<char>, Tree)>::empty(),
            object.fields() == Map::<Seq<char>, Value>::empty(),
    {
        Object::new()
    }
}

impl Clone for Object {
    fn clone(&self) -> (copy: Object)
        ensures
            copy@ == self@,
        decreases self@,
    {
        proof {
            use_type_invariant(self);
        }
        let n = self.inner.len();
        let mut inner: Vec<(String, Value)> = Vec::new();
        let mut i: usize = 0;
        while i < n
            invariant
                n == self.inner@.len(),
                i <= n,
                inner@.len() == i,
                forall|k: int|
                    0 <= k < i ==> (#[trigger] inner@[k]).0@ == self.inner@[k].0@ && inner@[k].1@
                        == self.inner@[k].1@,
            decreases n - i,
        {
            assert(self@[i as int] == (self.inner@[i as int].0@, self.inner@[i as int].1@));
            assert(decreases_to!(self@ => self@[i as int]));
            assert(decreases_to!(self@[i as int] => self@[i as int].1));
            let key = self.inner[i].0.clone();
            let value = self.inner[i].1.clone();
            inner.push((key, value));
            i = i + 1;
        }
        assert((Object { inner: inner })@ =~= self@);
        Object { inner }
    }
}

impl Object {
    /// Holds of every object: no key occurs twice.
    #[verifier::type_invariant]
    pub closed spec fn well_formed(&self) -> bool {
        distinct_keys(self@)
    }

    /// What `well_formed` says.
    pub proof fn lemma_well_formed(self)
        requires
            self.well_formed(),
        ensures
            distinct_keys(self@),
    {
    }

    /// Entries under the keys of a well-formed object make a well-formed
    /// object, whatever their values are.
    proof fn lemma_keys_kept(self)
        requires
            self.well_formed(),
        ensures
            forall|pairs: Vec<(String, Value)>|
                pairs@.len() == self.inner@.len() && (forall|i: int|
                    0 <= i < self.inner@.len() ==> (#[trigger] pairs@[i]).0 == self.inner@[i].0)
                    ==> #[trigger] (Object { inner: pairs }).well_formed(),
    {
        assert forall|pairs: Vec<(String, Value)>|
            pairs@.len() == self.inner@.len() && (forall|i: int|
                0 <= i < self.inner@.len() ==> (#[trigger] pairs@[i]).0 == self.inner@[i].0)
                implies #[trigger] (Object { inner: pairs }).well_formed() by {
            let after = (Object { inner: pairs })@;
            assert forall|i: int, j: int| 0 <= i < j < after.len() implies (#[trigger] after[i]).0
                != (#[trigger] after[j]).0 by {
                assert(after[i].0 == pairs@[i].0@);
                assert(after[j].0 == pairs@[j].0@);
                assert(self@[i].0 != self@[j].0);
            }
        }
    }

    /// The values of the object under their keys.
    pub closed spec fn fields(&self) -> Map<Seq<char>, Value> {
        Map::new(
            |key: Seq<char>| position(self@, key) < self@.len(),
            |key: Seq<char>| self.inner@[position(self@, key)].1,
        )
    }

    /// The keys of the fields are those of the entries, and the tree of a
    /// field is that of its entry.
    pub proof fn lemma_fields(self, key: Seq<char>)
        ensures
            self.fields().dom().contains(key) <==> position(self@, key) < self@.len(),
            self.fields().dom().contains(key) ==> self.fields()[key]@ == self@[position(
                self@,
                key,
            )].1,
    {
        lemma_position(self@, key);
    }

    /// Entries that differ from those of a well-formed object in the value
    /// at `at` alone have its fields but for the field of that key.
    proof fn lemma_fields_updated(self, pairs: Vec<(String, Value)>, at: int, value: Value)
        requires
            self.well_formed(),
            0 <= at < self.inner@.len(),
            pairs@ == self.inner@.update(at, (self.inner@[at].0, value)),
        ensures
            (Object { inner: pairs }).fields() == self.fields().insert(self@[at].0, value),
    {
        let after = Object { inner: pairs };
        let wanted = self.fields().insert(self@[at].0, value);
        assert(after@ =~= self@.update(at, (self@[at].0, value@)));
        lemma_position_is(self@, self@[at].0, at);
        assert forall|k: Seq<char>|
            (#[trigger] after.fields().dom().contains(k)) == wanted.dom().contains(k) && (
            after.fields().dom().contains(k) ==> after.fields()[k] == wanted[k]) by {
            lemma_position(self@, k);
            lemma_position_is(after@, k, position(self@, k));
        }
        assert(after.fields() =~= wanted);
    }

    /// An object without entries.
    pub fn new() -> (object: Object)
        ensures
            object@ == Seq::<(Seq<char>, Tree)>::empty(),
            object.fields() == Map::<Seq<char>, Value>::empty(),
    {
        let inner: Vec<(String, Value)> = Vec::new();
        assert((Object { inner: inner })@ =~= Seq::<(Seq<char>, Tree)>::empty());
        let object = Object { inner };
        assert(object.fields() =~= Map::<Seq<char>, Value>::empty());
        object
    }

    pub fn len(&self) -> (n: usize)
        ensures
            n == self@.len(),
    {
        self.inner.len()
    }

    pub fn is_empty(&self) -> (empty: bool)
        ensures
            empty == (self@.len() == 0),
    {
        self.inner.len() == 0
    }

    /// The index of the entry of `key`, or the number of entries where there
    /// is none.
    pub fn find(&self, key: &str) -> (at: usize)
        ensures
            at == position(self@, key@),
            at <= self@.len(),
    {
        let n = self.inner.len();
        let mut at: usize = 0;
        while at < n
            invariant
                at <= n,
                n == self.inner@.len(),
                n == self@.len(),
                forall|i: int| 0 <= i < at ==> (#[trigger] self@[i]).0 != key@,
            ensures
                at < n ==> self@[at as int].0 == key@,
            decreases n - at,
        {
            if str_eq(self.inner[at].0.as_str(), key) {
                break ;
            }
            at = at + 1;
        }
        proof {
            lemma_position_is(self@, key@, at as int);
        }
        at
    }

    /// The entry at `index`, if there is one.
    pub fn entry(&self, index: usize) -> (entry: Option<(&str, &Value)>)
        ensures
            match entry {
                Some((key, value)) => {
                    &&& index < self@.len()
                    &&& key@ == self@[index as int].0
                    &&& value@ == self@[index as int].1
                    &&& *value == self.fields()[key@]
                },
                None => index >= self@.len(),
            },
    {
        proof {
            use_type_invariant(self);
        }
        if index < self.inner.len() {
            proof {
                lemma_position_is(self@, self@[index as int].0, index as int);
            }
            let pair = &self.inner[index];
            Some((pair.0.as_str(), &pair.1))
        } else {
            None
        }
    }

    /// Gives `key` the value `value`: in place where the key has an entry,
    /// whose former value is returned, and at the end where it has none.
    pub fn insert(&mut self, key: String, value: Value) -> (previous: Option<Value>)
        ensures
            final(self)@ == put(old(self)@, key@, value@),
            final(self).fields() == old(self).fields().insert(key@, value),
            match previous {
                Some(former) => {
                    &&& position(old(self)@, key@) < old(self)@.len()
                    &&& former@ == old(self)@[position(old(self)@, key@)].1
                },
                None => position(old(self)@, key@) == old(self)@.len(),
            },
    {
        proof {
            use_type_invariant(&*self);
            lemma_put_distinct(self@, key@, value@);
        }
        let at = self.find(key.as_str());
        let mut inner: Vec<(String, Value)> = Vec::new();
        assert(entries(inner@) =~= Seq::empty());
        core::mem::swap(&mut inner, &mut self.inner);
        assert(entries(inner@) =~= old(self)@);
        let previous = if at < inner.len() {
            let mut entry = (key, value);
            core::mem::swap(&mut inner[at], &mut entry);
            Some(entry.1)
        } else {
            inner.push((key, value));
            None
        };
        assert(entries(inner@) =~= put(old(self)@, key@, value@));
        assert((Object { inner: inner })@ =~= entries(inner@));
        self.inner = inner;
        proof {
            let before = old(self)@;
            let after = self@;
            let wanted = old(self).fields().insert(key@, value);
            lemma_position(before, key@);
            assert forall|k: Seq<char>|
                (#[trigger] self.fields().dom().contains(k)) == wanted.dom().contains(k) && (
                self.fields().dom().contains(k) ==> self.fields()[k] == wanted[k]) by {
                lemma_position(before, k);
                let found = position(before, k);
                if at < before.len() || found < before.len() {
                    lemma_position_is(after, k, found);
                } else if k == key@ {
                    lemma_position_is(after, k, before.len() as int);
                } else {
                    lemma_position_is(after, k, before.len() as int + 1);
                }
            }
            assert(self.fields() =~= wanted);
        }
        previous
    }

    /// The entries of the object, in their order.
    pub fn into_vec(self) -> (pairs: Vec<(String, Value)>)
        ensures
            entries(pairs@) == self@,
            distinct_keys(self@),
    {
        proof {
            use_type_invariant(&self);
        }
        let mut object = self;
        object.take_entries()
    }

    /// Takes all entries out of the object, in their order, and leaves it
    /// empty.
    pub fn take_entries(&mut self) -> (pairs: Vec<(String, Value)>)
        ensures
            entries(pairs@) == old(self)@,
            final(self)@ == Seq::<(Seq<char>, Tree)>::empty(),
            final(self).fields() == Map::<Seq<char>, Value>::empty(),
        opens_invariants none
        no_unwind
    {
        assert(self@ =~= entries(self.inner@));
        assert forall|none: Vec<(String, Value)>| none@.len() == 0 implies #[trigger] (Object {
            inner: none,
        }).well_formed() by {
            assert((Object { inner: none })@ =~= Seq::<(Seq<char>, Tree)>::empty());
        }
        let pairs = take_all(&mut self.inner);
        assert(self@ =~= Seq::<(Seq<char>, Tree)>::empty());
        assert(self.fields() =~= Map::<Seq<char>, Value>::empty());
        pairs
    }

    /// Puts `value` in the place of the value of the entry at `index`, and
    /// that value in `value`; the key stays. Where there is no such entry,
    /// nothing is changed.
    pub fn exchange(&mut self, index: usize, value: &mut Value) -> (done: bool)
        ensures
            done == (index < old(self)@.len()),
            old(self)@.len() <= usize::MAX,
            done ==> final(self)@ == old(self)@.update(
                index as int,
                (old(self)@[index as int].0, old(value)@),
            ),
            done ==> final(self).fields() == old(self).fields().insert(
                old(self)@[index as int].0,
                *old(value),
            ),
            done ==> final(value)@ == old(self)@[index as int].1,
            done ==> *final(value) == old(self).fields()[old(self)@[index as int].0],
            !done ==> final(self)@ == old(self)@ && *final(value) == *old(value),
            !done ==> final(self).fields() == old(self).fields(),
        opens_invariants none
        no_unwind
    {
        proof {
            use_type_invariant(&*self);
        }
        assert(self@.len() == self.inner.len());
        let ghost before = self.inner@;
        proof {
            self.lemma_keys_kept();
        }
        match value_mut(&mut self.inner, index) {
            Some(slot) => {
                core::mem::swap(slot, value);
                assert(self@ =~= old(self)@.update(
                    index as int,
                    (old(self)@[index as int].0, old(value)@),
                ));
                proof {
                    old(self).lemma_fields_updated(self.inner, index as int, *old(value));
                    lemma_position_is(
                        old(self)@,
                        old(self)@[index as int].0,
                        index as int,
                    );
                }
                true
            },
            None => {
                assert(self@ =~= old(self)@);
                assert(self.fields() =~= old(self).fields());
                false
            },
        }
    }

    /// The entries as the protocol hands them out: one at a time, none
    /// before it is asked for.
    pub fn entries(&self) -> (pairs: ObjectIter<'_>)
        ensures
            keyed(pairs.pending()) == self@,
            distinct_keys(self@),
    {
        proof {
            use_type_invariant(self);
        }
        let pairs = ObjectIter { pairs: &self.inner, next: 0 };
        assert(keyed(pairs.pending()) =~= self@);
        pairs
    }

    /// Whether `key` has an entry.
    pub fn contains_key(&self, key: &str) -> (found: bool)
        ensures
            found == (position(self@, key@) < self@.len()),
    {
        self.find(key) < self.inner.len()
    }

    /// The value of `key`, to be changed, if it has one. The key stays.
    pub fn get_mut(&mut self, key: &str) -> (value: Option<&mut Value>)
        ensures
            match value {
                Some(found) => {
                    &&& position(old(self)@, key@) < old(self)@.len()
                    &&& found@ == old(self)@[position(old(self)@, key@)].1
                    &&& *found == old(self).fields()[key@]
                    &&& final(self)@ == old(self)@.update(
                        position(old(self)@, key@),
                        (old(self)@[position(old(self)@, key@)].0, final(found)@),
                    )
                    &&& final(self).fields() == old(self).fields().insert(key@, *final(found))
                },
                None => {
                    &&& position(old(self)@, key@) == old(self)@.len()
                    &&& final(self)@ == old(self)@
                    &&& final(self).fields() == old(self).fields()
                },
            },
    {
        proof {
            use_type_invariant(&*self);
        }
        let at = self.find(key);
        let ghost before = self.inner@;
        proof {
            self.lemma_keys_kept();
        }
        assert forall|pairs: Vec<(String, Value)>, value: Value|
            at < before.len() && pairs@ == before.update(at as int, (before[at as int].0, value))
                implies #[trigger] (Object { inner: pairs })@ == self@.update(
                at as int,
                (self@[at as int].0, #[trigger] value@),
            ) by {
            assert((Object { inner: pairs })@ =~= self@.update(
                at as int,
                (self@[at as int].0, value@),
            ));
        }
        assert forall|pairs: Vec<(String, Value)>| pairs@ == before implies #[trigger] (Object {
            inner: pairs,
        })@ == self@ by {
            assert((Object { inner: pairs })@ =~= self@);
        }
        assert forall|pairs: Vec<(String, Value)>, value: Value|
            at < before.len() && pairs@ == before.update(at as int, (before[at as int].0, value))
                implies #[trigger] (Object { inner: pairs }).fields() == #[trigger] self.fields().insert(
                key@,
                value,
            ) by {
            lemma_position(self@, key@);
            self.lemma_fields_updated(pairs, at as int, value);
        }
        assert forall|pairs: Vec<(String, Value)>| pairs@ == before implies #[trigger] (Object {
            inner: pairs,
        }).fields() == self.fields() by {
            assert((Object { inner: pairs })@ =~= self@);
            assert((Object { inner: pairs }).fields() =~= self.fields());
        }
        value_mut(&mut self.inner, at)
    }

    /// Takes the entry of `key` out, if it has one, and returns its value;
    /// the other entries keep their order.
    pub fn remove(&mut self, key: &str) -> (removed: Option<Value>)
        ensures
            final(self)@ == without(old(self)@, key@),
            final(self).fields() == old(self).fields().remove(key@),
            match removed {
                Some(value) => {
                    &&& position(old(self)@, key@) < old(self)@.len()
                    &&& value@ == old(self)@[position(old(self)@, key@)].1
                    &&& value == old(self).fields()[key@]
                },
                None => position(old(self)@, key@) == old(self)@.len(),
            },
    {
        proof {
            use_type_invariant(&*self);
        }
        let at = self.find(key);
        if at < self.inner.len() {
            let mut inner: Vec<(String, Value)> = Vec::new();
            assert((Object { inner: inner })@ =~= Seq::<(Seq<char>, Tree)>::empty());
            core::mem::swap(&mut inner, &mut self.inner);
            let pair = inner.remove(at);
            let ghost after = old(self)@.remove(at as int);
            assert((Object { inner: inner })@ =~= after);
            assert forall|i: int, j: int| 0 <= i < j < after.len() implies (#[trigger] after[i]).0
                != (#[trigger] after[j]).0 by {
                let a = if i < at { i } else { i + 1 };
                let b = if j < at { j } else { j + 1 };
                assert(after[i] == old(self)@[a]);
                assert(after[j] == old(self)@[b]);
                assert(old(self)@[a].0 != old(self)@[b].0);
            }
            self.inner = inner;
            proof {
                let before = old(self)@;
                let wanted = old(self).fields().remove(key@);
                assert forall|k: Seq<char>|
                    (#[trigger] self.fields().dom().contains(k)) == wanted.dom().contains(k) && (
                    self.fields().dom().contains(k) ==> self.fields()[k] == wanted[k]) by {
                    lemma_position(before, k);
                    lemma_position(before, key@);
                    let found = position(before, k);
                    assert forall|i: int| 0 <= i < after.len() implies (#[trigger] after[i])
                        == before[if i < at { i } else { i + 1 }] && self.inner@[i].1
                        == old(self).inner@[if i < at { i } else { i + 1 }].1 by {}
                    if found < at {
                        lemma_position_is(after, k, found);
                    } else if found == at {
                        assert forall|i: int| 0 <= i < after.len() implies (#[trigger] after[i]).0
                            != k by {
                            let a = if i < at { i } else { i + 1 };
                            assert(before[a].0 != before[at as int].0);
                        }
                        lemma_position_is(after, k, after.len() as int);
                    } else {
                        assert forall|i: int| 0 <= i < found - 1 implies (#[trigger] after[i]).0
                            != k by {
                            let a = if i < at { i } else { i + 1 };
                            assert(before[a].0 != k);
                        }
                        lemma_position_is(after, k, found - 1);
                    }
                }
                assert(self.fields() =~= wanted);
            }
            Some(pair.1)
        } else {
            proof {
                lemma_position(self@, key@);
                assert(self.fields() =~= old(self).fields().remove(key@));
            }
            None
        }
    }

    /// The value of `key`, if it has one.
    pub fn get(&self, key: &str) -> (value: Option<&Value>)
        ensures
            match value {
                Some(found) => {
                    &&& position(self@, key@) < self@.len()
                    &&& found@ == self@[position(self@, key@)].1
                    &&& *found == self.fields()[key@]
                },
                None => position(self@, key@) == self@.len(),
            },
    {
        let at = self.find(key);
        if at < self.inner.len() {
            Some(&self.inner[at].1)
        } else {
            None
        }
    }
}

/// The value of the entry at `index`, to be changed; the key stays.
fn value_mut(pairs: &mut Vec<(String, Value)>, index: usize) -> (slot: Option<&mut Value>)
    ensures
        match slot {
            Some(value) => index < old(pairs)@.len() && *value == old(pairs)@[index as int].1
                && final(pairs)@ == old(pairs)@.update(
                index as int,
                (old(pairs)@[index as int].0, *final(value)),
            ),
            None => index >= old(pairs)@.len() && final(pairs)@ == old(pairs)@,
        },
    opens_invariants none
    no_unwind
{
    match slot_mut(pairs, index) {
        Some(pair) => Some(&mut pair.1),
        None => None,
    }
}

/// Calls `str::eq`. Claimed of it: two strings are equal where they hold the
/// same characters, and only there.
#[verifier::external_body]
fn str_eq(a: &str, b: &str) -> (same: bool)
    ensures
        same == (a@ == b@),
{
    a == b
}

/// An index at which the key stands, with no earlier one, is its position;
/// so is the length where it stands nowhere.
proof fn lemma_position_is(entries: Seq<(Seq<char>, Tree)>, key: Seq<char>, at: int)
    requires
        0 <= at <= entries.len(),
        at < entries.len() ==> entries[at].0 == key,
        forall|i: int| 0 <= i < at ==> (#[trigger] entries[i]).0 != key,
    ensures
        position(entries, key) == at,
    decreases entries.len(),
{
    if entries.len() > 0 && at > 0 {
        assert(entries[0].0 != key);
        let rest = entries.drop_first();
        assert forall|i: int| 0 <= i < at - 1 implies (#[trigger] rest[i]).0 != key by {
            assert(rest[i] == entries[i + 1]);
        }
        lemma_position_is(rest, key, at - 1);
    }
}

/// The entries of an object, in the order in which their keys were first
/// inserted.
pub struct ObjectIter<'a> {
    pairs: &'a Vec<(String, Value)>,
    next: usize,
}

impl<'a> MapIter for ObjectIter<'a> {
    type Item = Value;

    closed spec fn pending(&self) -> Seq<(Seq<char>, Value)> {
        if self.next <= self.pairs@.len() {
            Seq::new(
                (self.pairs@.len() - self.next) as nat,
                |i: int| (self.pairs@[self.next + i].0@, self.pairs@[self.next + i].1),
            )
        } else {
            Seq::empty()
        }
    }

    fn next(&mut self) -> (entry: Option<(Cow<'_, str>, &Value)>) {
        if self.next < self.pairs.len() {
            let pair = &self.pairs[self.next];
            self.next = self.next + 1;
            assert(self.pending() =~= old(self).pending().drop_first());
            Some((Cow::Borrowed(pair.0.as_str()), &pair.1))
        } else {
            None
        }
    }
}

impl crate::ser::Serialize for Object {
    type Elements<'a> = Empty;

    type Entries<'a> = ObjectIter<'a>;

    open spec fn shape(&self) -> Shape {
        Shape::Mapping
    }

    fn begin(&self) -> (fragment: Fragment<'_, Empty, ObjectIter<'_>>)
        ensures
            fragment matches Fragment::Mapping(pairs) && keyed(pairs.pending()) == self@,
            distinct_keys(self@),
    {
        Fragment::Mapping(self.entries())
    }
}

/// The entries that a builder has taken: those in its object, then the key
/// and the value in its slot, where both are there.
pub open spec fn collected(object: Object, key: Option<String>, value: Option<Value>) -> Seq<
    (Seq<char>, Tree),
> {
    match (key, value) {
        (Some(k), Some(v)) => put(object@, k@, v@),
        _ => object@,
    }
}

/// The values that a builder has taken, under their keys: those in its
/// object, then the value in its slot under the key in its slot, where both
/// are there.
pub open spec fn collected_values(
    object: Object,
    key: Option<String>,
    value: Option<Value>,
) -> Map<Seq<char>, Value> {
    match (key, value) {
        (Some(k), Some(v)) => object.fields().insert(k@, v),
        _ => object.fields(),
    }
}

/// The handle that collects the entries of a keyed map for the place `out`.
///
/// `key` is the key that is being fed and `value` the place of its value;
/// `object` holds the entries before it.
pub struct ObjectBuilder<'a, T> {
    pub out: &'a mut Option<T>,
    pub object: Object,
    pub key: Option<String>,
    pub value: Option<Value>,
}

impl<'a, T> ObjectBuilder<'a, T> {
    /// A builder for `out` that has taken no entry.
    pub fn new(out: &'a mut Option<T>) -> (builder: ObjectBuilder<'a, T>)
        ensures
            *builder.out == *old(out),
            *final(builder.out) == *final(out),
            builder.object@ == Seq::<(Seq<char>, Tree)>::empty(),
            builder.key is None,
            builder.value is None,
    {
        ObjectBuilder { out, object: Object::new(), key: None, value: None }
    }

    /// Moves the key and the value in the slot, where both are there, into
    /// the object, and empties the slot.
    fn shift(&mut self)
        ensures
            final(self).key is None,
            final(self).value is None,
            final(self).object@ == collected(old(self).object, old(self).key, old(self).value),
            final(self).object.fields() == collected_values(
                old(self).object,
                old(self).key,
                old(self).value,
            ),
            final(self).out == old(self).out,
    {
        let key = self.key.take();
        let value = self.value.take();
        if let Some(k) = key {
            if let Some(v) = value {
                self.object.insert(k, v);
            }
        }
    }

    /// The place for the value of `k`, empty. The entry fed before it joins
    /// the object.
    fn slot(&mut self, k: &str) -> (place: &mut Option<Value>)
        ensures
            *place is None,
            final(self).value == *final(place),
            final(self).key matches Some(key) && key@ == k@,
            final(self).object@ == collected(old(self).object, old(self).key, old(self).value),
            final(self).object.fields() == collected_values(
                old(self).object,
                old(self).key,
                old(self).value,
            ),
            final(self).out == old(self).out,
    {
        self.shift();
        self.key = Some(k.to_owned());
        &mut self.value
    }

    /// The object of all entries taken; the builder is left without any.
    fn take(&mut self) -> (object: Object)
        ensures
            object@ == collected(old(self).object, old(self).key, old(self).value),
            object.fields() == collected_values(old(self).object, old(self).key, old(self).value),
            final(self).object@ == Seq::<(Seq<char>, Tree)>::empty(),
            final(self).key is None,
            final(self).value is None,
            final(self).out == old(self).out,
    {
        self.shift();
        let mut object = Object::new();
        core::mem::swap(&mut object, &mut self.object);
        object
    }
}

impl<'a> MapHandle for ObjectBuilder<'a, Value> {
    type Value = Value;

    open spec fn filled(&self) -> bool {
        *self.out is Some
    }

    open spec fn recognizes(&self, key: Seq<char>) -> bool {
        true
    }

    open spec fn complete(&self) -> bool {
        true
    }

    open spec fn supplied(&self) -> Map<Seq<char>, Value> {
        collected_values(self.object, self.key, self.value)
    }

    open spec fn committed(&self) -> Map<Seq<char>, Value> {
        match *self.out {
            Some(Value::Object(object)) => object.fields(),
            _ => Map::empty(),
        }
    }

    /// The entry fed before joins the object.
    fn key(&mut self, k: &str) -> (slot: Result<&mut Option<Value>, Error>)
        ensures
            slot matches Ok(place) && final(self).value == *final(place),
            final(self).key matches Some(key) && key@ == k@,
            final(self).object@ == collected(old(self).object, old(self).key, old(self).value),
            final(self).object.fields() == collected_values(
                old(self).object,
                old(self).key,
                old(self).value,
            ),
            final(self).out == old(self).out,
    {
        Ok(self.slot(k))
    }

    fn finish(&mut self) -> (done: Result<(), Error>)
        ensures
            done is Ok,
            holds(
                *final(self).out,
                Tree::Object(collected(old(self).object, old(self).key, old(self).value)),
            ),
            *final(final(self).out) == *final(old(self).out),
    {
        let object = self.take();
        *self.out = Some(Value::Object(object));
        Ok(())
    }
}

impl<'a> MapHandle for ObjectBuilder<'a, Object> {
    type Value = Value;

    open spec fn filled(&self) -> bool {
        *self.out is Some
    }

    open spec fn recognizes(&self, key: Seq<char>) -> bool {
        true
    }

    open spec fn complete(&self) -> bool {
        true
    }

    open spec fn supplied(&self) -> Map<Seq<char>, Value> {
        collected_values(self.object, self.key, self.value)
    }

    open spec fn committed(&self) -> Map<Seq<char>, Value> {
        match *self.out {
            Some(object) => object.fields(),
            None => Map::empty(),
        }
    }

    /// The entry fed before joins the object.
    fn key(&mut self, k: &str) -> (slot: Result<&mut Option<Value>, Error>)
        ensures
            slot matches Ok(place) && final(self).value == *final(place),
            final(self).key matches Some(key) && key@ == k@,
            final(self).object@ == collected(old(self).object, old(self).key, old(self).value),
            final(self).object.fields() == collected_values(
                old(self).object,
                old(self).key,
                old(self).value,
            ),
            final(self).out == old(self).out,
    {
        Ok(self.slot(k))
    }

    fn finish(&mut self) -> (done: Result<(), Error>)
        ensures
            done is Ok,
            *final(self).out matches Some(object) && object@ == collected(
                old(self).object,
                old(self).key,
                old(self).value,
            ),
            *final(final(self).out) == *final(old(self).out),
    {
        let object = self.take();
        *self.out = Some(object);
        Ok(())
    }
}

impl<'a> Visitor for Place<'a, Object> {
    type Elements = Refused;

    type Entries = ObjectBuilder<'a, Object>;

    open spec fn filled(&self) -> bool {
        *self.out is Some
    }

    open spec fn takes(&self, shape: Shape) -> bool {
        shape is Mapping
    }

    fn map(self) -> (handle: Result<ObjectBuilder<'a, Object>, Error>)
        ensures
            handle matches Ok(builder) && *builder.out == *old(self.out) && *final(builder.out)
                == *final(self.out) && builder.object@ == Seq::<(Seq<char>, Tree)>::empty()
                && builder.key is None && builder.value is None,
    {
        Ok(ObjectBuilder::new(self.out))
    }

    /// An object takes no sequence: the call fails, and the place is as it
    /// was.
    fn seq(self) -> (handle: Result<Refused, Error>)
        ensures
            handle is Err,
            *final(self.out) == *old(self.out),
    {
        Err(Error)
    }
}

impl crate::de::Deserialize for Object {
    type Visitor<'a> = Place<'a, Object>;

    fn begin<'a>(out: &'a mut Option<Object>) -> (visitor: Place<'a, Object>)
        ensures
            *visitor.out == *old(out),
            *final(visitor.out) == *final(out),
    {
        Place::new(out)
    }
}

} // verus!
