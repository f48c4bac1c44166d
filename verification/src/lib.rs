//! Read-only access to GRF asset archives, with a proof of every function.
//!
//! The crate decodes the container's fixed records through a bounds-checked
//! byte cursor, builds the case-insensitive index of its entries, undoes the
//! legacy block cipher of an entry and inflates it. Reading the file itself is
//! left to the caller: the archive says which bytes it needs and is handed
//! them.
//!
//! Beside the archive stand two small pieces of the interface that is built
//! on it: the link from one element to another, and the controls of a
//! dialog.

pub mod archive;
pub mod dialog;
pub mod formats;
pub mod linked;
pub mod mixcrypt;
pub mod stream;
pub mod text;
pub mod zlib;
