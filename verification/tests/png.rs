use pngecret::chunk::{Chunk, ChunkError};
use pngecret::chunk_type::ChunkType;
use pngecret::png::{Png, PngError};

const SIGNATURE: [u8; 8] = [137, 80, 78, 71, 13, 10, 26, 10];

fn chunk(type_text: &str, data: &str) -> Chunk {
    Chunk::new(
        ChunkType::from_str(type_text).unwrap(),
        data.as_bytes().to_vec(),
    )
    .unwrap()
}

fn testing_png() -> Png {
    Png::from_chunks(vec![
        chunk("FrSt", "I am the first chunk"),
        chunk("miDl", "I am another chunk"),
        chunk("LASt", "I am the last chunk"),
    ])
}

fn chunk_eq(a: &Chunk, b: &Chunk) -> bool {
    a.length() == b.length()
        && a.chunk_type().bytes() == b.chunk_type().bytes()
        && a.data() == b.data()
        && a.crc() == b.crc()
}

#[test]
fn test_png_round_trip() {
    let png = testing_png();
    let bytes = png.as_bytes();
    assert_eq!(&bytes[0..8], &SIGNATURE);

    let back = Png::parse(bytes.as_slice()).unwrap();
    assert_eq!(back.chunks.len(), 3);
    for (a, b) in back.chunks.iter().zip(png.chunks.iter()) {
        assert!(chunk_eq(a, b));
    }
}

#[test]
fn test_png_parse_empty() {
    let png = Png::parse(&SIGNATURE).unwrap();
    assert_eq!(png.chunks.len(), 0);
}

#[test]
fn test_png_bad_signature() {
    let r = Png::parse(&[13, 80, 78, 71, 13, 10, 26, 10]);
    assert_eq!(r.unwrap_err(), PngError::BadSignature);

    let r = Png::parse(&[137, 80, 78]);
    assert_eq!(r.unwrap_err(), PngError::BadSignature);
}

#[test]
fn test_png_truncated_chunk() {
    let mut bytes = SIGNATURE.to_vec();
    bytes.extend_from_slice(&[0, 0, 0, 1, 82]);
    let r = Png::parse(bytes.as_slice());
    assert_eq!(r.unwrap_err(), PngError::Chunk(ChunkError::Truncated));
}

#[test]
fn test_png_overrunning_length() {
    // The declared length runs past the end of the buffer.
    let c = chunk("RuSt", "hi");
    let mut bytes = SIGNATURE.to_vec();
    let mut cb = c.as_bytes();
    cb[3] = 200;
    bytes.extend_from_slice(&cb);
    let r = Png::parse(bytes.as_slice());
    assert_eq!(r.unwrap_err(), PngError::Chunk(ChunkError::LengthMismatch(200)));
}

#[test]
fn test_png_find_by_type() {
    let png = testing_png();
    let found = png.chunk_by_type("miDl").unwrap();
    assert_eq!(found.chunk_type().to_text(), "miDl");
    assert_eq!(found.data_as_string().unwrap(), "I am another chunk");

    assert!(png.chunk_by_type("noNe").is_none());
}

#[test]
fn test_png_find_returns_first_match() {
    let png = Png::from_chunks(vec![
        chunk("duPe", "one"),
        chunk("duPe", "two"),
        chunk("oThr", "x"),
    ]);
    let found = png.chunk_by_type("duPe").unwrap();
    assert_eq!(found.data_as_string().unwrap(), "one");
}

#[test]
fn test_png_append_chunk() {
    let mut png = testing_png();
    png.append_chunk(chunk("TeSt", "Message"));
    let found = png.chunk_by_type("TeSt").unwrap();
    assert_eq!(found.chunk_type().to_text(), "TeSt");
    assert_eq!(found.data_as_string().unwrap(), "Message");
    assert_eq!(png.chunks.len(), 4);
}

#[test]
fn test_png_remove_first_chunk() {
    let mut png = testing_png();
    let removed = png.remove_first_chunk("miDl").unwrap();
    assert_eq!(removed.chunk_type().to_text(), "miDl");
    assert!(png.chunk_by_type("miDl").is_none());
    assert_eq!(png.chunks.len(), 2);
}

#[test]
fn test_png_remove_missing_leaves_chunks_unchanged() {
    let mut png = testing_png();
    let before = png.as_bytes();
    let r = png.remove_first_chunk("noNe");
    match r {
        Err(PngError::ChunkNotFound(t)) => assert_eq!(t, "noNe"),
        other => panic!("expected ChunkNotFound, got {:?}", other),
    }
    assert_eq!(png.as_bytes(), before);
}

#[test]
fn test_png_remove_only_first_of_duplicates() {
    let mut png = Png::from_chunks(vec![
        chunk("duPe", "one"),
        chunk("oThr", "x"),
        chunk("duPe", "two"),
    ]);
    let removed = png.remove_first_chunk("duPe").unwrap();
    assert_eq!(removed.data_as_string().unwrap(), "one");
    assert_eq!(png.chunks.len(), 2);
    let left = png.chunk_by_type("duPe").unwrap();
    assert_eq!(left.data_as_string().unwrap(), "two");
}

#[test]
fn test_png_remove_append_round_trip() {
    // Chunks [A, B, C]: removing B yields [A, C]; appending D yields
    // [A, C, D]; serializing and parsing returns [A, C, D] again.
    let a = chunk("FrSt", "I am the first chunk");
    let b = chunk("miDl", "I am another chunk");
    let c = chunk("LASt", "I am the last chunk");
    let d = chunk("TeSt", "Message");
    let mut png = Png::from_chunks(vec![
        chunk("FrSt", "I am the first chunk"),
        chunk("miDl", "I am another chunk"),
        chunk("LASt", "I am the last chunk"),
    ]);

    let removed = png.remove_first_chunk("miDl").unwrap();
    assert!(chunk_eq(&removed, &b));
    assert_eq!(png.chunks.len(), 2);
    assert!(chunk_eq(&png.chunks[0], &a));
    assert!(chunk_eq(&png.chunks[1], &c));

    png.append_chunk(chunk("TeSt", "Message"));
    assert_eq!(png.chunks.len(), 3);
    assert!(chunk_eq(&png.chunks[2], &d));

    let back = Png::parse(png.as_bytes().as_slice()).unwrap();
    assert_eq!(back.chunks.len(), 3);
    assert!(chunk_eq(&back.chunks[0], &a));
    assert!(chunk_eq(&back.chunks[1], &c));
    assert!(chunk_eq(&back.chunks[2], &d));
}

#[test]
fn test_png_render_text() {
    let png = Png::from_chunks(vec![chunk("FrSt", "one"), chunk("LASt", "two")]);
    assert_eq!(png.render_text(), "FrSt\tone\nLASt\ttwo\n");
}

#[test]
fn test_png_chunk_error_propagates() {
    let c = chunk("RuSt", "hello");
    let mut bytes = SIGNATURE.to_vec();
    let mut cb = c.as_bytes();
    let last = cb.len() - 1;
    cb[last] ^= 0xff;
    let bad_crc = c.crc() ^ 0xff;
    bytes.extend_from_slice(&cb);
    let r = Png::parse(bytes.as_slice());
    assert_eq!(
        r.unwrap_err(),
        PngError::Chunk(ChunkError::ChecksumMismatch(bad_crc))
    );
}

#[test]
fn test_png_embed_and_extract_message() {
    // Embedding: build a chunk from an obscured message, append it,
    // serialize; extraction: parse, find the chunk, read its data back.
    let secret = pngecret::crypt::encrypt("Attack at dawn!", "password").unwrap();
    let mut png = testing_png();
    png.append_chunk(chunk("ruSt", &secret));
    let file_bytes = png.as_bytes();

    let parsed = Png::parse(file_bytes.as_slice()).unwrap();
    let hidden = parsed.chunk_by_type("ruSt").unwrap();
    let obscured = hidden.data_as_string().unwrap();
    assert_eq!(
        pngecret::crypt::decrypt(&obscured, "password").unwrap(),
        "Attack at dawn!"
    );
}
