//! The dictionary resolution table: a decode-time registry mapping a
//! dictionary identifier (a non-negative, session-scoped integer supplied by
//! the surrounding protocol) to the already-materialized, immutable array of
//! dictionary values registered for it.

use std::collections::HashMap;
use std::sync::Arc;

use vstd::prelude::*;

use crate::array::Array;
use crate::error::Error;

verus! {

broadcast use vstd::std_specs::hash::group_hash_axioms;

/// Relies on std::sync::Arc::clone: the new handle refers to the very same
/// value as the old one.
#[verifier::external_body]
fn clone_arc(handle: &Arc<Array>) -> (r: Arc<Array>)
    ensures
        r == *handle,
{
    Arc::clone(handle)
}

/// The registry. Ids are registered strictly before any message referencing
/// them is decoded; resolving an unregistered id is a protocol violation.
pub struct Dictionaries {
    map: HashMap<u64, Arc<Array>>,
    ids: Vec<u64>,
}

impl Dictionaries {
    /// The registered entries.
    pub closed spec fn table(&self) -> Map<u64, Arc<Array>> {
        self.map@
    }

    /// The registered ids, in first-registration order.
    pub closed spec fn known_ids(&self) -> Seq<u64> {
        self.ids@
    }

    pub open spec fn wf(&self) -> bool {
        &&& (forall|i: int|
            0 <= i < self.known_ids().len() ==> self.table().contains_key(
                #[trigger] self.known_ids()[i],
            ))
        &&& (forall|id: u64|
            #[trigger] self.table().contains_key(id) ==> self.known_ids().contains(id))
    }

    pub fn new() -> (r: Dictionaries)
        ensures
            r.wf(),
            r.table() == Map::<u64, Arc<Array>>::empty(),
            r.known_ids() == Seq::<u64>::empty(),
    {
        Dictionaries { map: HashMap::new(), ids: Vec::new() }
    }

    /// Registers `values` under `id`, once the array is fully materialized;
    /// re-registering an id replaces its entry.
    pub fn insert(&mut self, id: u64, values: Arc<Array>)
        requires
            old(self).wf(),
        ensures
            final(self).wf(),
            final(self).table() == old(self).table().insert(id, values),
            final(self).known_ids() == (if old(self).table().contains_key(id) {
                old(self).known_ids()
            } else {
                old(self).known_ids().push(id)
            }),
    {
        if !self.map.contains_key(&id) {
            self.ids.push(id);
        }
        self.map.insert(id, values);
        proof {
            assert forall|d: u64| #[trigger]
                final(self).table().contains_key(d) implies final(self).known_ids().contains(
                d,
            ) by {
                if d == id {
                    if old(self).table().contains_key(id) {
                        assert(old(self).known_ids().contains(d));
                        let i = choose|i: int|
                            0 <= i < old(self).known_ids().len() && old(self).known_ids()[i] == d;
                        assert(final(self).known_ids()[i] == d);
                    } else {
                        let last = final(self).known_ids().len() - 1;
                        assert(final(self).known_ids()[last] == d);
                    }
                } else {
                    assert(old(self).table().contains_key(d));
                    assert(old(self).known_ids().contains(d));
                    let i = choose|i: int|
                        0 <= i < old(self).known_ids().len() && old(self).known_ids()[i] == d;
                    assert(final(self).known_ids()[i] == d);
                }
            }
        }
    }

    /// How many ids are registered.
    pub fn len(&self) -> (r: usize)
        requires
            self.wf(),
        ensures
            r == self.known_ids().len(),
    {
        self.ids.len()
    }

    /// Resolves `id` to the exact array registered for it. An unregistered id
    /// fails with [`Error::UnknownDictionaryId`], listing the ids that are
    /// known; out-of-order reference is surfaced, never recovered.
    pub fn resolve(&self, id: u64) -> (r: Result<Arc<Array>, Error>)
        requires
            self.wf(),
        ensures
            r is Ok <==> self.table().contains_key(id),
            (match r {
                Result::Ok(values) => values == self.table()[id],
                Result::Err(e) => (match e {
                    Error::UnknownDictionaryId { id: bad, known } => bad == id && known@
                        == self.known_ids(),
                    _ => false,
                }),
            }),
    {
        match self.map.get(&id) {
            Option::Some(values) => Ok(clone_arc(values)),
            Option::None => Err(
                Error::UnknownDictionaryId { id, known: copy_ids(&self.ids) },
            ),
        }
    }
}

/// Copies the id list for an error report.
fn copy_ids(ids: &Vec<u64>) -> (r: Vec<u64>)
    ensures
        r@ == ids@,
{
    let mut r: Vec<u64> = Vec::new();
    let mut i: usize = 0;
    while i < ids.len()
        invariant
            i <= ids@.len(),
            r@ == ids@.subrange(0, i as int),
        decreases ids@.len() - i,
    {
        r.push(ids[i]);
        proof {
            assert(r@ =~= ids@.subrange(0, i + 1));
        }
        i = i + 1;
    }
    proof {
        assert(ids@.subrange(0, i as int) =~= ids@);
    }
    r
}

} // verus!
