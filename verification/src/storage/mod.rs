//! Key layout, payload formats and the storage rules built on them.
pub mod catalog_codec;
pub mod index_iter;
pub mod iter;
pub mod keys;
pub mod kip;
pub mod theorems;
pub mod order;
pub mod scan;
pub mod table_codec;
pub mod transaction;
pub mod value_codec;
pub mod wire;

pub use index_iter::{IndexAction, IndexEvent, IndexIter, KeyBound, Pending};
pub use iter::{Bounds, KipIter, Projections};
pub use kip::{Entry, StorageError, WriteOp};
pub use table_codec::{CodecError, TableCodec};
pub use transaction::Transaction;
