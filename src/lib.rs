//! A directory of room aliases for a homeserver: it maps a human-readable
//! alias `#localpart:domain` to the room it names, lets the alias's creator
//! remove the binding, and keeps at most one binding per alias.

pub mod alias;
pub mod directory;
pub mod store;
