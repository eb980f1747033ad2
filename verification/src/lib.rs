//! A chunk-stream codec for a PNG-style container file: validated four-byte
//! type codes, length/type/data/checksum chunks, and a whole-file
//! (de)serializer with type-keyed lookup, insertion and removal.

pub mod chunk;
pub mod chunk_type;
pub mod png;

pub use chunk::Chunk;
pub use chunk::ChunkError;
pub use chunk_type::ChunkType;
pub use chunk_type::ChunkTypeError;
pub use png::Png;
pub use png::PngError;
