//! Iteration over flat numeric buffers in fixed-width blocks ("lanes").
//!
//! A source region is decomposed into full blocks of a fixed, strictly
//! positive lane count, plus an optional trailing partial block when the
//! length does not divide evenly and the caller supplied a padding block.
//! Reads go through [`ReadVectorizer`], writes through [`WriteVectorizer`]
//! and the write-back proxy [`MutProxy`].

pub mod block;
pub mod error;
pub mod iter;
pub mod laws;
pub mod partial;
pub mod repr;
pub mod vectorizer;

pub use block::Block;
pub use error::Error;
pub use iter::IterModel;
pub use iter::VectorizedIter;
pub use iter::add_splat;
pub use iter::vectorize;
pub use iter::vectorize_mut;
pub use iter::vectorize_pad;
pub use iter::vectorize_pad_mut;
pub use iter::vectorize_pad_pair_mut;
pub use iter::vectorize_pair;
pub use partial::Partial;
pub use repr::Repr;
pub use vectorizer::MutProxy;
pub use vectorizer::ReadVectorizer;
pub use vectorizer::WriteVectorizer;
pub use vectorizer::create_pair;
pub use vectorizer::create_pair_mut;
