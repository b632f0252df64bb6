use vstd::prelude::*;

use crate::aggregate::Aggregate;
use crate::error::AggregateError;

verus! {

/// The records after inserting `value` under `id` unless a record already
/// holds that identifier.
pub open spec fn insert_if_absent<V>(records: Map<Seq<char>, V>, id: Seq<char>, value: V) -> Map<
    Seq<char>,
    V,
> {
    if records.contains_key(id) {
        records
    } else {
        records.insert(id, value)
    }
}

/// A second insertion under an identifier leaves the records as the first
/// one left them, and the first value inserted stays its record.
pub proof fn lemma_insert_if_absent_keeps_first<V>(
    records: Map<Seq<char>, V>,
    id: Seq<char>,
    first: V,
    second: V,
)
    ensures
        insert_if_absent(insert_if_absent(records, id, first), id, second) == insert_if_absent(
            records,
            id,
            first,
        ),
        insert_if_absent(records, id, first).contains_key(id),
        !records.contains_key(id) ==> insert_if_absent(records, id, first)[id] == first,
        records.contains_key(id) ==> insert_if_absent(records, id, first)[id] == records[id],
{
}

/// Durable storage of aggregates of type `A`, keyed by their identifiers.
pub trait Repository<A: Aggregate> {
    /// The stored states, by identifier.
    spec fn records(&self) -> Map<Seq<char>, A::V>;

    /// Stores the aggregate under its identifier unless a record already
    /// holds it, and returns the identifier; an existing record is kept.
    fn add(&mut self, aggregate: &A) -> (r: Result<String, AggregateError>)
        ensures
            match r {
                Ok(id) => {
                    &&& id@ == A::identity(aggregate@)
                    &&& final(self).records() == insert_if_absent(
                        old(self).records(),
                        id@,
                        aggregate@,
                    )
                },
                Err(_) => final(self).records() == old(self).records(),
            },
    ;

    /// Loads the current state stored under the identifier.
    fn get(&self, aggregate_id: &str) -> (r: Result<A, AggregateError>)
        ensures
            match r {
                Ok(a) => {
                    &&& self.records().contains_key(aggregate_id@)
                    &&& a@ == self.records()[aggregate_id@]
                },
                Err(e) => e is NotFound ==> !self.records().contains_key(aggregate_id@),
            },
            !self.records().contains_key(aggregate_id@) ==> r is Err,
    ;
}

} // verus!
