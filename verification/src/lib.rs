//! Content-based string interning for an append-only, offset-addressed
//! archive buffer.
//!
//! Identical payloads written during one serialization session are stored
//! once; every occurrence is represented by a fixed-size reference record
//! (offset and length) that can be resolved back to the payload using only
//! the buffer itself. The write-time registry, the buffer-owning serializer,
//! and the read-time shared-value cache are independent components combined
//! by [`InternAdapter`], which forwards each capability to exactly one of
//! them and unifies their error channels in one tagged error type.

pub mod adapter;
pub mod errors;
pub mod interned;
pub mod registry;
pub mod serializer;
pub mod session;
pub mod shared;
pub mod wire;

pub use adapter::InternAdapter;
pub use errors::{AdapterError, InternError, InternSerializerAdapterError, ReaderError,
    WriterError};
pub use interned::{Intern, InternedRkyvString};
pub use registry::{InternSerializeMap, InternSerializeRegistry};
pub use serializer::BufSerializer;
pub use session::deserialize_values;
pub use shared::SharedDeserializeCache;
pub use wire::{ArchivedRkyvInternedString, InternedResolver};
