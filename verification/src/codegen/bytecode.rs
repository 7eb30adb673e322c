//! Encoded functions and modules of the bytecode back end.
use vstd::prelude::*;
use std::collections::HashMap;
use crate::codegen::ir::IRConst;

verus! {

/// A function's code, with the offset of each label and the places where jump
/// targets are patched in. Its name is kept for dispatch.
#[derive(Debug)]
pub struct BytecodeFunction {
    pub name: String,
    pub code: Vec<u8>,
    pub label_map: HashMap<u32, usize>,
    pub patch_sites: Vec<(usize, u32)>,
}

/// A module: its constants, its functions and the index of each global.
#[derive(Debug)]
pub struct BytecodeModule {
    pub const_pool: Vec<IRConst>,
    pub functions: Vec<BytecodeFunction>,
    pub name_to_global: HashMap<String, usize>,
}

} // verus!
