use phpmd_lsp::document::{
    can_compress, compress_document, decompress_document, hex_text, CompressedDocument,
    DocumentError,
};

#[test]
fn a_document_reads_back() {
    let long = "<?php echo 'caf\u{e9}';\n".repeat(500);
    for text in ["", "x", "<?php\n", "\u{20ac}\u{1f600}", long.as_str()] {
        assert!(can_compress(text));
        let doc = compress_document(text);
        assert_eq!(doc.original_size, text.len());
        assert_eq!(decompress_document(&doc).as_deref(), Ok(text));
        assert_ne!(doc.compressed_data, text.as_bytes());
    }
}

#[test]
fn repetitive_text_takes_less_room() {
    let text = "        return $this->value;\n".repeat(200);
    let doc = compress_document(&text);
    assert!(doc.compressed_data.len() < text.len() / 4);
}

#[test]
fn checksums_are_sha_256_in_lower_case() {
    assert_eq!(
        compress_document("").checksum,
        "e3b0c44298fc1c149afbf4c8996fb92427ae41e4649b934ca495991b7852b855"
    );
    assert_eq!(
        compress_document("abc").checksum,
        "ba7816bf8f01cfea414140de5dae2223b00361a396177a9cb410ff61f20015ad"
    );
}

#[test]
fn the_same_text_has_the_same_checksum() {
    assert_eq!(compress_document("a").checksum, compress_document("a").checksum);
    assert_ne!(compress_document("a").checksum, compress_document("b").checksum);
    assert_eq!(compress_document("a").checksum.len(), 64);
}

#[test]
fn damaged_data_is_refused() {
    for data in [vec![], vec![1, 0, 0], vec![9, 0, 0, 0], vec![0; 4], vec![2, 0, 0, 0, 0xf0]] {
        let doc = CompressedDocument {
            compressed_data: data,
            original_size: 0,
            checksum: String::new(),
        };
        assert_eq!(decompress_document(&doc), Err(DocumentError::Decompression));
    }
}

#[test]
fn data_that_is_not_text_is_refused() {
    // The size, one literal run of two bytes, and the bytes.
    let doc = CompressedDocument {
        compressed_data: vec![2, 0, 0, 0, 0x20, 0xff, 0xfe],
        original_size: 2,
        checksum: String::new(),
    };
    assert_eq!(decompress_document(&doc), Err(DocumentError::Utf8));
}

#[test]
fn plain_literals_are_read() {
    let doc = CompressedDocument {
        compressed_data: vec![2, 0, 0, 0, 0x20, b'h', b'i'],
        original_size: 2,
        checksum: String::new(),
    };
    assert_eq!(decompress_document(&doc).as_deref(), Ok("hi"));
}

#[test]
fn hexadecimal_digits_come_in_pairs() {
    assert_eq!(hex_text(&vec![0x00, 0x0f, 0xa9, 0xff]), "000fa9ff");
    assert_eq!(hex_text(&vec![]), "");
}
