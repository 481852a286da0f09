use vstd::prelude::*;

pub mod add;
pub mod archive;
pub mod cli;
pub mod create;
pub mod elements;
pub mod info;
pub mod json;
pub mod manifest;
pub mod pack_formats;
pub mod scanner;
pub mod strings;

verus! {

} // verus!
