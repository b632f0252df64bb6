mod aggregate;
mod error;
mod event;
mod repository;

pub use crate::aggregate::Aggregate;
pub use crate::error::{error_message, AggregateError};
pub use crate::event::DomainEvent;
pub use crate::repository::{insert_if_absent, lemma_insert_if_absent_keeps_first, Repository};

pub mod doc;
