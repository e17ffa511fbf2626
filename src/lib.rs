//! Mode-polymorphic circuit arithmetic over fixed-width integers and scalars,
//! with checked and wrapped operators and a static prediction of the cost and
//! output mode of every operation.
pub mod bits;
pub mod boolean;
pub mod context;
pub mod count;
pub mod integer;
pub mod metrics;
pub mod mode;
pub mod scalar;
pub mod shr;
pub mod visibility;

pub use boolean::{Boolean, Constraint};
pub use context::{Context, Halt};
pub use count::Count;
pub use integer::{Integer, IntegerType, Native};
pub use mode::Mode;
pub use scalar::{Scalar, SCALAR_BITS};
pub use visibility::{EncodingError, Visibility, FIELD_DATA_BITS};
