//! The pluggable verifier interface.
//!
//! An extension module judges one reading at one level and says whether
//! it passes. Implementations live outside the library (a native shared
//! library, an embedded script); the pipeline only relies on getting an
//! answer back, and treats an error as a failed check. Nothing here
//! promises what an implementation answers.

use vstd::prelude::*;

use crate::value::DataType;

verus! {

/// Why a module could not deliver a verdict.
#[derive(Debug)]
pub struct ModuleError {
    pub message: String,
}

/// A pluggable verifier: `run` judges one reading at one level.
/// Lazy loading and caching are the implementor's business, behind
/// `&mut self`.
pub trait QCModule {
    fn run(&mut self, level: usize, datetime: i64, data: &DataType) -> Result<bool, ModuleError>;
}

/// The module that accepts every reading: stands in where a level
/// configures no working module.
#[derive(Debug, Clone, Copy, PartialEq, Eq, Structural)]
pub struct PassModule;

impl QCModule for PassModule {
    fn run(&mut self, level: usize, datetime: i64, data: &DataType) -> Result<bool, ModuleError> {
        Ok(true)
    }
}

} // verus!
