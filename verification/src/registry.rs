//! The registry of known aircraft, by identifier.

use vstd::prelude::*;
use std::collections::HashMap;
use crate::aircraft::{Aircraft, AircraftView};
use crate::text::chars_of;

verus! {

broadcast use vstd::std_specs::hash::group_hash_axioms;

/// What `entries` say of the aircraft `id`: the last entry with that
/// identifier counts.
spec fn lookup(entries: Seq<AircraftView>, id: Seq<char>) -> Option<AircraftView>
    decreases entries.len(),
{
    if entries.len() == 0 {
        None
    } else if entries.last().id == id {
        Some(entries.last())
    } else {
        lookup(entries.drop_last(), id)
    }
}

/// What `lookup` finds for an identifier is an aircraft of that identifier.
proof fn lemma_lookup_id(entries: Seq<AircraftView>, id: Seq<char>)
    ensures
        lookup(entries, id) matches Some(aircraft) ==> aircraft.id == id,
    decreases entries.len(),
{
    if entries.len() > 0 && entries.last().id != id {
        lemma_lookup_id(entries.drop_last(), id);
    }
}

/// The views of aircraft.
spec fn aircraft_view(entries: Seq<Aircraft>) -> Seq<AircraftView> {
    entries.map_values(|aircraft: Aircraft| aircraft@)
}

/// The modulus of the bucket numbers: the largest prime below 2^32.
const BUCKET_MODULUS: u64 = 4_294_967_291;

/// The number of the bucket in which the aircraft `id` is kept.
spec fn bucket_of(id: Seq<char>) -> u64
    decreases id.len(),
{
    if id.len() == 0 {
        0
    } else {
        ((bucket_of(id.drop_last()) * 31 + id.last() as u32) % (BUCKET_MODULUS as int)) as u64
    }
}

/// The number of the bucket in which the aircraft `id` is kept.
fn bucket_number(id: &String) -> (number: u64)
    ensures
        number == bucket_of(id@),
{
    let chars = chars_of(id.as_str());
    let mut number: u64 = 0;
    let mut i: usize = 0;
    while i < chars.len()
        invariant
            i <= chars.len(),
            number == bucket_of(chars@.take(i as int)),
            number < BUCKET_MODULUS,
        decreases chars.len() - i,
    {
        proof {
            assert(chars@.take(i + 1).drop_last() == chars@.take(i as int));
        }
        number = (number * 31 + (chars[i] as u32) as u64) % BUCKET_MODULUS;
        i += 1;
    }
    proof {
        assert(chars@.take(i as int) == chars@);
    }
    number
}

/// What the buckets `buckets` say of the aircraft `id`: what its bucket says
/// of it, if there is that bucket.
spec fn found_in(buckets: Map<u64, Vec<Aircraft>>, id: Seq<char>) -> Option<AircraftView> {
    if buckets.contains_key(bucket_of(id)) {
        lookup(aircraft_view(buckets[bucket_of(id)]@), id)
    } else {
        None
    }
}

/// The known aircraft. Its view is the map from identifier to aircraft.
pub struct Registry {
    buckets: HashMap<u64, Vec<Aircraft>>,
}

impl View for Registry {
    type V = Map<Seq<char>, AircraftView>;

    closed spec fn view(&self) -> Map<Seq<char>, AircraftView> {
        Map::new(
            |id: Seq<char>| found_in(self.buckets@, id) is Some,
            |id: Seq<char>| found_in(self.buckets@, id)->0,
        )
    }
}

impl Registry {
    /// A registry that knows no aircraft.
    pub fn new() -> (registry: Registry)
        ensures
            registry@ == Map::<Seq<char>, AircraftView>::empty(),
    {
        Registry { buckets: HashMap::new() }
    }

    /// Makes `aircraft` the entry of its identifier, in place of an earlier
    /// one if there was one.
    pub fn insert(&mut self, aircraft: Aircraft)
        ensures
            final(self)@ == old(self)@.insert(aircraft@.id, aircraft@),
    {
        let number = bucket_number(&aircraft.id);
        let ghost before = self.buckets@;
        let mut bucket = match self.buckets.remove(&number) {
            Some(bucket) => bucket,
            None => Vec::new(),
        };
        let ghost held = aircraft_view(bucket@);
        bucket.push(aircraft);
        proof {
            let after = aircraft_view(bucket@);
            assert(after.drop_last() == held);
        }
        self.buckets.insert(number, bucket);
        proof {
            let after = self.buckets@;
            assert forall|id: Seq<char>|
                found_in(after, id) == (if id == aircraft@.id {
                    Some(aircraft@)
                } else {
                    #[trigger] found_in(before, id)
                }) by {
                if bucket_of(id) == number && !before.contains_key(number) {
                    assert(lookup(held, id).is_none());
                }
            }
        }
    }

    /// The entry of the identifier `id`, if there is one.
    pub fn get(&self, id: &String) -> (found: Option<&Aircraft>)
        ensures
            match found {
                Some(aircraft) => self@.contains_key(id@) && self@[id@] == aircraft@,
                None => !self@.contains_key(id@),
            },
    {
        let number = bucket_number(id);
        let bucket = match self.buckets.get(&number) {
            None => {
                return None;
            },
            Some(bucket) => bucket,
        };
        let ghost views = aircraft_view(bucket@);
        let mut i: usize = bucket.len();
        assert(views.take(i as int) == views);
        while i > 0
            invariant
                i <= bucket.len(),
                number == bucket_of(id@),
                self.buckets@.contains_key(number),
                self.buckets@[number] == *bucket,
                views == aircraft_view(bucket@),
                lookup(views, id@) == lookup(views.take(i as int), id@),
            decreases i,
        {
            proof {
                assert(views.take(i as int).drop_last() == views.take(i - 1));
            }
            i -= 1;
            if bucket[i].id == *id {
                return Some(&bucket[i]);
            }
        }
        None
    }

    /// Every aircraft of the registry stands under its own identifier.
    pub proof fn lemma_keys_are_ids(&self)
        ensures
            forall|id: Seq<char>| self@.contains_key(id) ==> (#[trigger] self@[id]).id == id,
    {
        assert forall|id: Seq<char>| self@.contains_key(id) implies (#[trigger] self@[id]).id
            == id by {
            lemma_lookup_id(aircraft_view(self.buckets@[bucket_of(id)]@), id);
        }
    }
}

} // verus!
