//! A reflection-based structural deserializer.
//!
//! Record types are described by a runtime binding table ([`schema::Schema`]),
//! built field by field from declared types and markers ([`binder`]). Record
//! instances are values of the closed sum type [`schema::Node`]; addressing a
//! field by name ([`object`]) materializes it on first access and hands out an
//! indexed view. A reference union ([`reference`]) turns from a bare pointer
//! into an inline record when other fields appear. A recursive-descent walker
//! ([`dyndeser::deserialize`]) consumes a stream of token events and mutates a
//! caller-supplied root in place.
pub mod reflection;
pub mod schema;
pub mod binder;
pub mod reference;
pub mod object;
pub mod dyndeser;
