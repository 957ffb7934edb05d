use pngme::args::EncodeArgs;
use pngme::chunk::Chunk;
use pngme::chunk_type::ChunkType;
use pngme::commands::{decode_message, describe, encode_message, remove_message};
use pngme::error::PngError;
use pngme::png::Png;

const SIGNATURE: [u8; 8] = [137, 80, 78, 71, 13, 10, 26, 10];

fn chunk(t: &str, data: &str) -> Chunk {
    Chunk::new(ChunkType::from_string(t).unwrap(), data.as_bytes().to_vec())
}

fn sample() -> Png {
    Png::from_chunks(vec![
        chunk("FrSt", "first"),
        chunk("miDl", "middle"),
        chunk("FrSt", "again"),
        chunk("LASt", ""),
    ])
}

#[test]
fn png_serialises_signature_then_chunks() {
    let png = sample();
    let bytes = png.as_bytes();
    assert_eq!(&bytes[0..8], &SIGNATURE);
    let mut expected = SIGNATURE.to_vec();
    expected.extend(chunk("FrSt", "first").as_bytes());
    expected.extend(chunk("miDl", "middle").as_bytes());
    expected.extend(chunk("FrSt", "again").as_bytes());
    expected.extend(chunk("LASt", "").as_bytes());
    assert_eq!(bytes, expected);
}

#[test]
fn png_round_trips() {
    let png = sample();
    let back = Png::try_from(&png.as_bytes()).unwrap();
    assert_eq!(back, png);
}

#[test]
fn png_with_no_chunks() {
    let png = Png::try_from(&SIGNATURE).unwrap();
    assert_eq!(png, Png::from_chunks(Vec::new()));
    assert_eq!(png.as_bytes(), SIGNATURE.to_vec());
}

#[test]
fn png_signature_gate() {
    let mut bytes = sample().as_bytes();
    bytes[0] = 0x88;
    assert_eq!(Png::try_from(&bytes), Err(PngError::InvalidSignature));
    assert_eq!(Png::try_from(&SIGNATURE[..7]), Err(PngError::InvalidSignature));
    assert_eq!(Png::try_from(&[]), Err(PngError::InvalidSignature));
    let mut other = SIGNATURE.to_vec();
    other[7] = 0;
    assert_eq!(Png::try_from(&other), Err(PngError::InvalidSignature));
}

#[test]
fn png_propagates_chunk_errors() {
    let mut bytes = sample().as_bytes();
    let n = bytes.len();
    bytes[n - 1] ^= 0x80;
    assert_eq!(Png::try_from(&bytes), Err(PngError::CrcMismatch));
    let bytes = sample().as_bytes();
    assert_eq!(Png::try_from(&bytes[..n - 2]), Err(PngError::Truncated));
}

#[test]
fn png_lookup_returns_first_match() {
    let png = sample();
    let found = png.chunk_by_type("FrSt").unwrap();
    assert_eq!(found.data_as_string().unwrap(), "first");
    assert!(png.chunk_by_type("frst").is_none());
    assert!(png.chunk_by_type("NoNe").is_none());
    assert_eq!(png.position_of_type(b"miDl"), Some(1));
    assert_eq!(png.position_of_type(b"LASt"), Some(3));
}

#[test]
fn png_remove_first_keeps_order() {
    let mut png = sample();
    let removed = png.remove_first_chunk("FrSt").unwrap();
    assert_eq!(removed.data_as_string().unwrap(), "first");
    assert_eq!(
        png,
        Png::from_chunks(vec![
            chunk("miDl", "middle"),
            chunk("FrSt", "again"),
            chunk("LASt", ""),
        ])
    );
    let again = png.remove_first_chunk("FrSt").unwrap();
    assert_eq!(again.data_as_string().unwrap(), "again");
    assert_eq!(png.remove_first_chunk("FrSt"), Err(PngError::ChunkNotFound));
    assert_eq!(
        png,
        Png::from_chunks(vec![chunk("miDl", "middle"), chunk("LASt", "")])
    );
}

#[test]
fn png_append_then_remove_restores() {
    let mut png = sample();
    png.append_chunk(chunk("NeWc", "hidden"));
    assert_eq!(
        png.chunk_by_type("NeWc").unwrap().data_as_string().unwrap(),
        "hidden"
    );
    let removed = png.remove_first_chunk("NeWc").unwrap();
    assert_eq!(removed, chunk("NeWc", "hidden"));
    assert_eq!(png, sample());
}

#[test]
fn png_chunk_at_position() {
    let png = sample();
    assert_eq!(png.chunk_at(1), &chunk("miDl", "middle"));
}

#[test]
fn png_text_rendering() {
    let png = Png::from_chunks(vec![chunk("RuSt", "hi")]);
    let c = chunk("RuSt", "hi");
    let expected = format!("PNG signature: 89 50 4E 47 0D 0A 1A 0A\n{}", c.to_string());
    assert_eq!(png.to_string(), expected);
    assert_eq!(describe(&png.as_bytes()), Ok(expected));
}

#[test]
fn encode_then_decode_message() {
    let t = ChunkType::from_string("RuSt").unwrap();
    let original = sample().as_bytes();
    let out = encode_message(&original, t, "This is where your secret message will be!").unwrap();
    let png = Png::try_from(&out).unwrap();
    let c = png.chunk_by_type("RuSt").unwrap();
    assert_eq!(c.length(), 42);
    assert_eq!(c.crc(), 2882656334);
    let mut expected = original.clone();
    expected.extend(c.as_bytes());
    assert_eq!(out, expected);
    let text = decode_message(&out, t).unwrap().unwrap();
    assert_eq!(text, c.to_string());
    assert_eq!(decode_message(&original, t), Ok(None));
}

#[test]
fn encode_refuses_bad_file() {
    let t = ChunkType::from_string("RuSt").unwrap();
    assert_eq!(encode_message(b"not a png", t, "x"), Err(PngError::InvalidSignature));
    assert_eq!(decode_message(b"not a png", t), Err(PngError::InvalidSignature));
    assert_eq!(describe(b"nope"), Err(PngError::InvalidSignature));
}

#[test]
fn remove_message_from_file() {
    let t = ChunkType::from_string("FrSt").unwrap();
    let (out, removed) = remove_message(&sample().as_bytes(), t).unwrap();
    assert_eq!(removed.unwrap(), chunk("FrSt", "first"));
    let expected = Png::from_chunks(vec![
        chunk("miDl", "middle"),
        chunk("FrSt", "again"),
        chunk("LASt", ""),
    ]);
    assert_eq!(out, expected.as_bytes());
    let missing = ChunkType::from_string("ABSt").unwrap();
    let (same, err) = remove_message(&sample().as_bytes(), missing).unwrap();
    assert_eq!(err, Err(PngError::ChunkNotFound));
    assert_eq!(same, sample().as_bytes());
}

#[test]
fn encode_output_path_choice() {
    let t = ChunkType::from_string("RuSt").unwrap();
    let with = EncodeArgs {
        file_path: "in.png".to_string(),
        chunk_type: t,
        message: "m".to_string(),
        output_file: Some("out.png".to_string()),
    };
    assert_eq!(with.output_path(), "out.png");
    let without = EncodeArgs {
        file_path: "in.png".to_string(),
        chunk_type: t,
        message: "m".to_string(),
        output_file: None,
    };
    assert_eq!(without.output_path(), "in.png");
}
