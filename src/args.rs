use crate::chunk_type::ChunkType;
use vstd::prelude::*;

verus! {

/// The four commands of the command-line tool.
#[derive(Debug)]
pub enum PngMeArgs {
    Encode(EncodeArgs),
    Decode(DecodeArgs),
    Remove(RemoveArgs),
    Print(PrintArgs),
}

/// Hide a message in a file under a chunk type.
#[derive(Debug)]
pub struct EncodeArgs {
    pub file_path: String,
    pub chunk_type: ChunkType,
    pub message: String,
    pub output_file: Option<String>,
}

/// Show the first chunk of a type.
#[derive(Debug)]
pub struct DecodeArgs {
    pub file_path: String,
    pub chunk_type: ChunkType,
}

/// Remove the first chunk of a type.
#[derive(Debug)]
pub struct RemoveArgs {
    pub file_path: String,
    pub chunk_type: ChunkType,
}

/// Show every chunk of a file.
#[derive(Debug)]
pub struct PrintArgs {
    pub file_path: String,
}

impl EncodeArgs {
    /// Where the edited file goes: the output file if one was given, else
    /// the input file itself.
    pub fn output_path(&self) -> (r: &String)
        ensures
            r@ == match self.output_file {
                Some(p) => p@,
                None => self.file_path@,
            },
    {
        match &self.output_file {
            Some(p) => p,
            None => &self.file_path,
        }
    }
}

} // verus!
