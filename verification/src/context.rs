//! The execution context: an ordered key-value record accumulated across a
//! sequence of tool invocations, created once per top-level request.

use vstd::prelude::*;
use crate::json::{JsonSpec, JsonValue};
use crate::strmap::StrMap;

verus! {

/// The record threaded through a run. Insertion overwrites an existing key;
/// the view is the mapping from keys to the views of the stored values.
#[derive(Debug)]
pub struct ExecutionContext {
    data: StrMap<JsonValue>,
}

impl View for ExecutionContext {
    type V = Map<Seq<char>, JsonSpec>;

    closed spec fn view(&self) -> Map<Seq<char>, JsonSpec> {
        Map::new(|k: Seq<char>| self.data@.contains_key(k), |k: Seq<char>| self.data@[k]@)
    }
}

impl ExecutionContext {
    pub closed spec fn wf(&self) -> bool {
        self.data.wf()
    }

    /// The keys, in insertion order.
    pub closed spec fn key_seq(&self) -> Seq<Seq<char>> {
        self.data.key_seq()
    }

    pub fn new() -> (r: Self)
        ensures
            r.wf(),
            r@ == Map::<Seq<char>, JsonSpec>::empty(),
            r.key_seq() == Seq::<Seq<char>>::empty(),
    {
        let r = ExecutionContext { data: StrMap::new() };
        proof {
            assert(r@ =~= Map::<Seq<char>, JsonSpec>::empty());
        }
        r
    }

    /// The value stored under the key, if any.
    pub fn get(&self, key: &str) -> (r: Option<&JsonValue>)
        requires
            self.wf(),
        ensures
            match r {
                Some(v) => self@.contains_key(key@) && v@ == self@[key@],
                None => !self@.contains_key(key@),
            },
    {
        self.data.get(key)
    }

    /// Stores the value under the key, overwriting any previous value.
    pub fn set(&mut self, key: String, value: JsonValue)
        requires
            old(self).wf(),
        ensures
            final(self).wf(),
            final(self)@ == old(self)@.insert(key@, value@),
            final(self).key_seq() == if old(self)@.contains_key(key@) {
                old(self).key_seq()
            } else {
                old(self).key_seq().push(key@)
            },
    {
        let ghost gvalue = value;
        self.data.insert(key, value);
        proof {
            assert(final(self)@ =~= old(self)@.insert(key@, gvalue@));
        }
    }

    /// The accumulated record, in insertion order.
    pub fn data(&self) -> (r: Vec<(String, JsonValue)>)
        requires
            self.wf(),
        ensures
            r@.len() == self.key_seq().len(),
            forall|i: int|
                0 <= i < r@.len() ==> r@[i].0@ == self.key_seq()[i] && self@.contains_key(
                    r@[i].0@,
                ) && r@[i].1@ == self@[r@[i].0@],
    {
        let mut out: Vec<(String, JsonValue)> = Vec::new();
        let total = self.data.len();
        let mut idx: usize = 0;
        while idx < total
            invariant
                idx <= total,
                self.wf(),
                total == self.key_seq().len(),
                out@.len() == idx,
                forall|i: int|
                    0 <= i < idx ==> out@[i].0@ == self.key_seq()[i] && self@.contains_key(
                        out@[i].0@,
                    ) && out@[i].1@ == self@[out@[i].0@],
            decreases total - idx,
        {
            let (k, v) = self.data.entry_at(idx);
            out.push((k.clone(), v.clone()));
            idx += 1;
        }
        out
    }
}

} // verus!
