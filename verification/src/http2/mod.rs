pub mod error;
pub mod utility;
