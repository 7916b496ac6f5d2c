//! Graphs of interconnected things.
//!
//! A [`Things`] container owns every thing (node) and every connection (edge)
//! of a graph. A connection is directed or undirected, and both things and
//! connections carry payload data. [`Thing`] and [`Connection`] are small
//! copyable handles into the container: an operation on a handle takes the
//! container it belongs to, and a handle stays valid for as long as its
//! container lives.
//!
//! Deletion is soft. [`Things::kill_things`] and [`Things::kill_connections`]
//! mark items dead and count them; the items stay on every list until
//! [`Things::clean`] drops them from the registries and from the local lists
//! of the things that are alive. [`Things::dead_percentage`] tells how much of
//! the graph is dead weight.
//!
//! Things and connections are equal when their payloads are equal
//! ([`Thing::eq`], [`Connection::eq`]); [`Thing::same_as`] and
//! [`Connection::same_as`] compare identity.
//!
//! ```text
//! let mut graph = Things::new();
//! let alice = graph.new_thing("Alice");
//! let bob = graph.new_thing("Bob");
//! let follows = graph.new_directed_connection(alice, "follows", bob);
//!
//! graph.kill_things(|graph, thing| thing.eq_data(graph, &"Alice"));
//! assert!(!follows.is_alive(&graph));
//! assert_eq!(graph.dead_percentage(), Ok(66));
//!
//! graph.clean();
//! assert_eq!(graph.thing_count(), 1);
//! ```
//!
//! What every operation does is stated over the mathematical view of the
//! container, [`ThingsView`], in the module [`model`]. The module [`laws`]
//! holds what follows for every graph; [`proofs`] holds the lemmas that the
//! operations rest on.
pub mod connection;
pub mod laws;
pub mod model;
pub mod proofs;
pub mod thing;
pub mod things;
pub mod visit;

pub use connection::{Connection, ConnectionInner, Direction};
pub use model::{ConnectionView, ThingView, ThingsView};
pub use thing::{Thing, ThingInner};
pub use things::Things;
pub use visit::Do;
