use vstd::prelude::*;

verus! {

/// An immutable fact about an aggregate of type `A`, folded into its state.
///
/// Folding an event either yields a brand-new aggregate (a creating event)
/// or changes an existing one in place; an event that does not fit the
/// state it meets leaves that state as it is.
pub trait DomainEvent<A: View>: Sized {
    /// The event yields a new aggregate instead of changing one in place.
    spec fn creates(&self) -> bool;

    /// `state` is what the creating event yields, under a fresh identifier.
    spec fn yields(&self, state: A::V) -> bool;

    /// The state that folding the event in place makes of `prior`.
    spec fn mutated(&self, prior: A::V) -> A::V;

    /// The event can be folded within the machine's integer bounds.
    spec fn admissible(&self) -> bool;

    /// The stable tag that names the event's variant.
    spec fn type_tag(&self) -> Seq<char>;

    /// The schema version of the event.
    spec fn version_tag(&self) -> Seq<char>;

    fn event_type(&self) -> (r: String)
        ensures
            r@ == self.type_tag(),
    ;

    fn event_version(&self) -> (r: String)
        ensures
            r@ == self.version_tag(),
    ;

    /// Folds the event: returns the new aggregate of a creating event, and
    /// changes `aggregate`, when given, in place.
    fn apply(&self, aggregate: Option<&mut A>) -> (r: Option<A>)
        requires
            self.admissible(),
        ensures
            r.is_some() <==> self.creates(),
            r.is_some() ==> self.yields(r.unwrap()@),
            aggregate.is_some() ==> final(aggregate.unwrap())@ == self.mutated(aggregate.unwrap()@),
    ;

    /// The entry point for folding, where version-aware upcasting would go;
    /// today it folds the event as it is.
    fn mutate(&self, aggregate: Option<&mut A>) -> (r: Option<A>)
        requires
            self.admissible(),
        ensures
            r.is_some() <==> self.creates(),
            r.is_some() ==> self.yields(r.unwrap()@),
            aggregate.is_some() ==> final(aggregate.unwrap())@ == self.mutated(aggregate.unwrap()@),
    {
        self.apply(aggregate)
    }
}

} // verus!
