//! Feeding what a value says of itself into a place.
use super::array::gathered;
use super::object::{collected, lemma_position, position, put};
use super::tree::{distinct_keys, holds, keyed, trees, Tree};
use super::value::Value;
use crate::de::{Deserialize, MapHandle, Place, SeqHandle, Visitor};
use crate::error::Error;
use crate::ser::{Fragment, MapIter, SeqIter, Serialize};
use std::borrow::Cow;
use vstd::prelude::*;

verus! {

/// Asks `source` for its fragment and drives what the fragment says through
/// `visitor`: a leaf by the call of its kind, a composite by a handle that
/// is fed each child in turn and then finished. A child is fed by a call of
/// `relay` itself, so the calls go as deep as `source` is nested.
///
/// Whatever the place held before, it ends up holding a value equal to
/// `source`: describing a value and feeding the description back in
/// rebuilds the value.
pub fn relay(source: &Value, visitor: Place<'_, Value>) -> (done: Result<(), Error>)
    ensures
        done is Ok,
        holds(*final(visitor.out), source@),
    decreases source@,
{
    let mut visitor = visitor;
    match source.begin() {
        Fragment::Null => visitor.null(),
        Fragment::Bool(b) => visitor.boolean(b),
        Fragment::Str(s) => match &s {
            Cow::Borrowed(text) => visitor.string(text),
            Cow::Owned(text) => visitor.string(text.as_str()),
        },
        Fragment::U64(n) => visitor.nonnegative(n),
        Fragment::I64(n) => visitor.negative(n),
        Fragment::F64(n) => visitor.float(n),
        Fragment::Sequence(mut elements) => {
            let ghost all = trees(elements.pending());
            match visitor.seq() {
                Err(e) => Err(e),
                Ok(mut handle) => {
                    loop
                        invariant
                            source@ == Tree::Array(all),
                            gathered(handle.array, handle.element) + trees(elements.pending())
                                == all,
                            *final(handle.out) == *final(visitor.out),
                        ensures
                            gathered(handle.array, handle.element) == all,
                            *final(handle.out) == *final(visitor.out),
                        decreases elements.pending().len(),
                    {
                        let ghost before = elements.pending();
                        let ghost taken = gathered(handle.array, handle.element);
                        match elements.next() {
                            None => {
                                assert(trees(before) =~= Seq::<Tree>::empty());
                                assert(taken + Seq::<Tree>::empty() =~= taken);
                                break ;
                            },
                            Some(item) => {
                                proof {
                                    assert(trees(before)[0] == item@);
                                    assert(all[taken.len() as int] == item@);
                                    assert(source@->Array_0 == all);
                                    assert(decreases_to!(source@ => source@->Array_0));
                                    assert(decreases_to!(all => all[taken.len() as int]));
                                }
                                match handle.element() {
                                    Err(e) => {
                                        return Err(e);
                                    },
                                    Ok(place) => {
                                        let fed = relay(item, Deserialize::begin(place));
                                    },
                                }
                                assert(trees(elements.pending()) =~= trees(before).drop_first());
                                assert(gathered(handle.array, handle.element) =~= taken.push(
                                    all[taken.len() as int],
                                ));
                                assert(taken.push(all[taken.len() as int]) + trees(
                                    elements.pending(),
                                ) =~= taken + trees(before));
                            },
                        }
                    }
                    handle.finish()
                },
            }
        },
        Fragment::Mapping(mut pairs) => {
            let ghost all = keyed(pairs.pending());
            match visitor.map() {
                Err(e) => Err(e),
                Ok(mut handle) => {
                    loop
                        invariant
                            source@ == Tree::Object(all),
                            distinct_keys(all),
                            collected(handle.object, handle.key, handle.value) + keyed(
                                pairs.pending(),
                            ) == all,
                            *final(handle.out) == *final(visitor.out),
                        ensures
                            collected(handle.object, handle.key, handle.value) == all,
                            *final(handle.out) == *final(visitor.out),
                        decreases pairs.pending().len(),
                    {
                        let ghost before = pairs.pending();
                        let ghost taken = collected(handle.object, handle.key, handle.value);
                        match pairs.next() {
                            None => {
                                assert(keyed(before) =~= Seq::<(Seq<char>, Tree)>::empty());
                                assert(taken + Seq::<(Seq<char>, Tree)>::empty() =~= taken);
                                break ;
                            },
                            Some((key, value)) => {
                                proof {
                                    assert(keyed(before)[0] == (key@, value@));
                                    assert(all[taken.len() as int] == (key@, value@));
                                    assert(source@->Object_0 == all);
                                    assert(decreases_to!(source@ => source@->Object_0));
                                    assert(decreases_to!(all => all[taken.len() as int]));
                                    let entry = all[taken.len() as int];
                                    assert(decreases_to!(entry => entry.1));
                                    lemma_put_fresh(all, taken.len() as int);
                                    assert(all.take(taken.len() as int) =~= taken);
                                }
                                let name: &str = match &key {
                                    Cow::Borrowed(text) => text,
                                    Cow::Owned(text) => text.as_str(),
                                };
                                match handle.key(name) {
                                    Err(e) => {
                                        return Err(e);
                                    },
                                    Ok(place) => {
                                        let fed = relay(value, Deserialize::begin(place));
                                    },
                                }
                                assert(keyed(pairs.pending()) =~= keyed(before).drop_first());
                                assert(collected(handle.object, handle.key, handle.value)
                                    =~= taken.push(all[taken.len() as int]));
                                assert(taken.push(all[taken.len() as int]) + keyed(
                                    pairs.pending(),
                                ) =~= taken + keyed(before));
                            },
                        }
                    }
                    handle.finish()
                },
            }
        },
    }
}

/// Where no key occurs twice, giving the entries before `at` the key and
/// tree at `at` appends that entry.
proof fn lemma_put_fresh(all: Seq<(Seq<char>, Tree)>, at: int)
    requires
        distinct_keys(all),
        0 <= at < all.len(),
    ensures
        put(all.take(at), all[at].0, all[at].1) == all.take(at).push(all[at]),
{
    let front = all.take(at);
    lemma_position(front, all[at].0);
    let found = position(front, all[at].0);
    if found < front.len() {
        assert(front[found] == all[found]);
        assert(all[found].0 != all[at].0);
    }
}

} // verus!
