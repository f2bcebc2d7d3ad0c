//! The analyzer shell: where augmented trace files are written. Reading
//! and writing the columnar files themselves happens outside the verified
//! library; the analyses' state machines live beside this type.

use vstd::prelude::*;

verus! {

/// Runs analyses over trace files, writing the augmented output.
#[derive(Debug)]
pub struct Analyzer {
    output_filename: String,
}

impl Analyzer {
    pub closed spec fn output_filename_spec(&self) -> Seq<char> {
        self.output_filename@
    }

    /// A new analyzer writing to the given output file.
    pub fn new(output_filename: String) -> (r: Analyzer)
        ensures
            r.output_filename_spec() == output_filename@,
    {
        Analyzer { output_filename }
    }

    /// The output file this analyzer writes.
    pub fn output_filename(&self) -> (r: &String)
        ensures
            r@ == self.output_filename_spec(),
    {
        &self.output_filename
    }
}

} // verus!
