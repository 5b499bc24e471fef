//! Transparent compression (`decmpfs`), as callers use it.

pub use crate::compression::{decompress, DecmpfsError};
