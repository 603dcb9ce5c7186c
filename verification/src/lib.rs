//! The segment bookkeeping of an inverted index, verified.
//!
//! An index is a set of immutable segments. A writer keeps two registers of them: the committed
//! ones, which the durable metadata lists, and the uncommitted ones, which wait for the next
//! commit. This crate holds those registers, the commit that moves segments between them, the
//! snapshot a prepared commit offers before it is durable, and the protocol that lays a new
//! segment out on disk.
//!
//! - [`segment_entry`], [`segment_register`] and [`segment_manager`] keep the segments.
//! - [`segment_serializer`] lays a segment out.
//! - [`index_writer`], [`segment_updater`] and [`prepared_commit`] take documents and deletes in,
//!   and make them durable; [`commit_timer`] measures how long that takes.
//! - [`index`] and [`reader`] are what is durable, and what is searched.
pub mod bit_set;
pub mod clock;
pub mod commit_timer;
pub mod delete_queue;
pub mod error;
pub mod future_result;
pub mod index;
pub mod index_writer;
pub mod prepared_commit;
pub mod reader;
pub mod schema;
pub mod segment_entry;
pub mod segment_manager;
pub mod segment_meta;
pub mod segment_register;
pub mod segment_serializer;
pub mod segment_updater;
