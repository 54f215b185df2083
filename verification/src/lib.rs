pub mod codec;
pub mod value;
pub mod merge;
pub mod nulls;
pub mod null_laws;
pub mod numbers;
pub mod error;
pub mod format;
pub mod laws;
pub mod run;
