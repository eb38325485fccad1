//! A small binary serialization layer. Values are appended to a flat byte
//! buffer; a cursor over such a buffer hands them back in the order in which
//! they were written, checking at every step that enough bytes are left.
//!
//! The layout has no tags and no versions: the reader must ask for the types
//! in the order in which they were written. Integers are written most
//! significant byte first. Text and sequences carry a 64-bit length in
//! front; tuples are their components, one after another.
//!
//! ```
//! use bin_buffer::{Bufferable, ReadBuffer};
//!
//! let mut buffer = Vec::new();
//! 16u16.into_buffer(&mut buffer);
//! String::from("hello").copy_into_buffer(&mut buffer);
//! vec![(1u8, 2u32), (3, 4)].into_buffer(&mut buffer);
//!
//! let mut reader = ReadBuffer::from_raw(buffer);
//! assert_eq!(u16::from_buffer(&mut reader), Some(16));
//! assert_eq!(String::from_buffer(&mut reader), Some(String::from("hello")));
//! assert_eq!(Vec::<(u8, u32)>::from_buffer(&mut reader), Some(vec![(1, 2), (3, 4)]));
//! assert_eq!(u8::from_buffer(&mut reader), None);
//! ```
//!
//! Every codec is verified against a mathematical statement of its layout,
//! and the laws that connect encoding and decoding are proved in [`laws`]
//! and, for each type, as part of its [`Bufferable`] implementation.

pub mod buffer;
pub mod codec;
pub mod ieee;
pub mod laws;
pub mod reader;
pub mod scalar;
pub mod sequence;
pub mod text;
pub mod tuple;

pub use buffer::{buffer_append_buffer, Buffer};
pub use codec::Bufferable;
pub use ieee::{Float32, Float64};
pub use reader::{Cursor, ReadBuffer};
