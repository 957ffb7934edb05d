use crate::chunk::{chunk_text, new_chunk, Chunk, ChunkView};
use crate::chunk_type::ChunkType;
use crate::error::PngError;
use crate::png::{encode_png, has_no_type, is_first_of_type, parse_png, png_text, Png};
use vstd::prelude::*;
use vstd::string::StringSliceAdditionalSpecFns;

verus! {

/// Adds a chunk of type `chunk_type` holding the bytes of `message` at the
/// end of the file in `png_bytes`, and returns the new file.
pub fn encode_message(png_bytes: &[u8], chunk_type: ChunkType, message: &str) -> (r: Result<
    Vec<u8>,
    PngError,
>)
    requires
        message.spec_bytes().len() <= u32::MAX,
    ensures
        match r {
            Ok(out) => parse_png(png_bytes@) matches Ok(cs) && out@ == encode_png(
                cs.push(new_chunk(chunk_type@, message.spec_bytes())),
            ),
            Err(e) => parse_png(png_bytes@) == Err::<Seq<ChunkView>, PngError>(e),
        },
{
    match Png::try_from(png_bytes) {
        Err(e) => Err(e),
        Ok(mut png) => {
            let data = message.as_bytes_vec();
            png.append_chunk(Chunk::new(chunk_type, data));
            Ok(png.as_bytes())
        },
    }
}

/// The text of the first chunk of type `chunk_type` in the file, if any.
pub fn decode_message(png_bytes: &[u8], chunk_type: ChunkType) -> (r: Result<
    Option<String>,
    PngError,
>)
    ensures
        match r {
            Ok(Some(s)) => parse_png(png_bytes@) matches Ok(cs) && exists|i: int|
                is_first_of_type(cs, chunk_type@, i) && s@ == chunk_text(#[trigger] cs[i]),
            Ok(None) => parse_png(png_bytes@) matches Ok(cs) && has_no_type(cs, chunk_type@),
            Err(e) => parse_png(png_bytes@) == Err::<Seq<ChunkView>, PngError>(e),
        },
{
    match Png::try_from(png_bytes) {
        Err(e) => Err(e),
        Ok(png) => {
            let tb = chunk_type.bytes();
            match png.position_of_type(tb.as_slice()) {
                Some(i) => {
                    let s = png.chunk_at(i).to_string();
                    let ghost cs = parse_png(png_bytes@)->Ok_0;
                    assert(cs == png@);
                    assert(is_first_of_type(cs, chunk_type@, i as int) && s@ == chunk_text(
                        cs[i as int],
                    ));
                    Ok(Some(s))
                },
                None => Ok(None),
            }
        },
    }
}

/// Removes the first chunk of type `chunk_type` from the file; returns the
/// file as it then stands and the chunk removed, or `ChunkNotFound` with
/// the file unchanged.
pub fn remove_message(png_bytes: &[u8], chunk_type: ChunkType) -> (r: Result<
    (Vec<u8>, Result<Chunk, PngError>),
    PngError,
>)
    ensures
        match r {
            Ok((out, Ok(c))) => parse_png(png_bytes@) matches Ok(cs) && exists|i: int|
                is_first_of_type(cs, chunk_type@, i) && #[trigger] cs[i] == c@ && out@
                    == encode_png(cs.remove(i)),
            Ok((out, Err(e))) => parse_png(png_bytes@) matches Ok(cs) && e
                == PngError::ChunkNotFound && has_no_type(cs, chunk_type@) && out@ == encode_png(
                cs,
            ),
            Err(e) => parse_png(png_bytes@) == Err::<Seq<ChunkView>, PngError>(e),
        },
{
    match Png::try_from(png_bytes) {
        Err(e) => Err(e),
        Ok(mut png) => {
            let tb = chunk_type.bytes();
            let ghost before = png@;
            let removed = png.remove_first_of_type(tb.as_slice());
            let out = png.as_bytes();
            proof {
                if removed is Ok {
                    let cv = removed->Ok_0@;
                    let i = choose|i: int|
                        is_first_of_type(before, chunk_type@, i) && #[trigger] before[i] == cv
                            && png@ == before.remove(i);
                    let cs = parse_png(png_bytes@)->Ok_0;
                    assert(cs == before);
                    assert(is_first_of_type(cs, chunk_type@, i) && cs[i] == cv && out@
                        == encode_png(cs.remove(i)));
                }
            }
            Ok((out, removed))
        },
    }
}

/// A rendering of every chunk of the file.
pub fn describe(png_bytes: &[u8]) -> (r: Result<String, PngError>)
    ensures
        match r {
            Ok(s) => parse_png(png_bytes@) matches Ok(cs) && s@ == png_text(cs),
            Err(e) => parse_png(png_bytes@) == Err::<Seq<ChunkView>, PngError>(e),
        },
{
    match Png::try_from(png_bytes) {
        Err(e) => Err(e),
        Ok(png) => Ok(png.to_string()),
    }
}

} // verus!
