//! A compiler from the line-numbered Simple language to Simpletron machine
//! language, and the Simpletron virtual machine that runs the result.
//!
//! The functions here are verified: the contracts say what each one computes,
//! and none of them panics. Two functions of the standard library are called
//! through wrappers whose contracts are taken on trust: `str::to_uppercase` and
//! `char::is_alphabetic`, both in [`text`].

pub mod config;
pub mod text;
pub mod types;
pub mod compiler;
pub mod simulator;
