// Access-controlled storage of configuration documents: identifiers split into
// a shared and a private range, shared configs readable by the tokens granted
// them, private configs readable and writable by their owner alone.

pub mod access;
pub mod partition;
pub mod store;
