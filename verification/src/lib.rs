//! The class-file, descriptor and archive layer of a small Java virtual
//! machine, with its contracts proved by Verus.
use vstd::prelude::*;

pub mod backends;
pub mod bitset;
pub mod call_stack;
pub mod classfile;
pub mod clinit;
pub mod decode;
pub mod decode_laws;
pub mod field;
pub mod heap;
pub mod descriptor;
pub mod hierarchy;
pub mod index_table;
pub mod interner;
pub mod interpret;
pub mod interpret_laws;
pub mod jar;
pub mod launcher;
pub mod loader;
pub mod method;
pub mod op;
pub mod reader;
pub mod report;
pub mod safety;
pub mod string;
pub mod system;
pub mod value;
pub mod verify;
pub mod verify_laws;
pub mod vtable;

verus! {

} // verus!
