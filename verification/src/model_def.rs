//! The definition of a sequence model, as its model file states it.

use vstd::prelude::*;

verus! {

/// The vocabulary and the limits of a sequence model.
#[derive(Debug)]
pub struct ModelDef {
    pub name: String,
    /// The symbols that the model reads, in the order of their positions.
    pub in_tokens: Vec<String>,
    /// The symbols that the model writes, in the order of their positions.
    pub out_tokens: Vec<String>,
    /// The greatest number of symbols in one input.
    pub max_in_length: usize,
    /// The greatest number of symbols in one output.
    pub max_out_length: usize,
}

} // verus!
