use vstd::prelude::*;

pub mod data;
pub mod error;
pub mod object;
pub mod storage;
pub mod transaction;

pub use data::{DataType, ObjectId, ToDataType, Value};
pub use error::{
    BackendError, BackendErrorKind, Error, MissingColumnError, NotFoundError, UnexpectedTypeError,
};
pub use object::{Field, Schema};
pub use storage::StorageTransaction;
pub use transaction::{FlushOp, ObjectState, Transaction, Tx};

verus! {

} // verus!
