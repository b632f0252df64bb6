use vstd::prelude::*;

use crate::event::DomainEvent;

verus! {

/// A versioned entity whose state is the fold of its events.
///
/// Commands are translated into events, and events are folded into the
/// state; nothing else changes it.
pub trait Aggregate: Sized + View {
    type Command;
    type Event: DomainEvent<Self>;
    type Error;
    type Services;

    /// The identifier held in a state.
    spec fn identity(state: Self::V) -> Seq<char>;

    /// The name of the aggregate kind.
    spec fn kind_name() -> Seq<char>;

    /// The event that a command translates into.
    spec fn translated(command: Self::Command) -> Self::Event;

    /// The command may bring an aggregate into being.
    spec fn creation_capable(command: Self::Command) -> bool;

    /// The name of the aggregate kind, a namespace key for storage.
    fn aggregate_type() -> (r: String)
        ensures
            r@ == Self::kind_name(),
    ;

    /// The identity token of this aggregate: its identifier.
    fn aggregate_version(&self) -> (r: String)
        ensures
            r@ == Self::identity(self@),
    ;

    /// The command can be carried out on an aggregate in `state`.
    spec fn executable(state: Self::V, command: Self::Command) -> bool;

    /// Translates the command into its event and folds that into `self`;
    /// fails, changing nothing, exactly where the command cannot be carried out.
    fn execute(&mut self, command: Self::Command, service: &Self::Services) -> (r: Result<
        (),
        Self::Error,
    >)
        requires
            Self::translated(command).admissible(),
        ensures
            r is Ok <==> Self::executable(old(self)@, command),
            r is Ok ==> final(self)@ == Self::translated(command).mutated(old(self)@),
            r is Err ==> final(self)@ == old(self)@,
    ;

    fn convert_command(command: Self::Command) -> (r: Self::Event)
        ensures
            r == Self::translated(command),
    ;

    /// Folds the event into `self` in place.
    fn trigger(&mut self, event: Self::Event)
        requires
            event.admissible(),
        ensures
            final(self)@ == event.mutated(old(self)@),
    {
        event.mutate(Some(self));
    }

    /// Brings an aggregate into being from a creation-capable command, and
    /// from no other.
    fn create(command: Self::Command) -> (r: Option<Self>)
        requires
            Self::translated(command).admissible(),
        ensures
            r.is_some() <==> Self::creation_capable(command),
            r.is_some() ==> Self::translated(command).yields(r.unwrap()@),
    ;
}

} // verus!
