//! Documents held in memory: compressed, with the size and the checksum of their text.
use crate::text::byte_len;
use sha2::Digest;
use vstd::prelude::*;
use vstd::utf8::*;

verus! {

/// A document as it is held in memory.
pub struct CompressedDocument {
    /// The text in UTF-8, compressed, behind its size.
    pub compressed_data: Vec<u8>,
    /// How many bytes the text takes in UTF-8.
    pub original_size: usize,
    /// The SHA-256 digest of the text, in hexadecimal digits.
    pub checksum: String,
}

/// Why a document cannot be read back.
#[derive(Clone, Copy, Debug, PartialEq, Eq, Structural)]
pub enum DocumentError {
    /// The data cannot be decompressed.
    Decompression,
    /// The decompressed data is not UTF-8.
    Utf8,
}

/// What a document holds.
pub struct DocumentView {
    pub data: Seq<u8>,
    pub original_size: nat,
    pub checksum: Seq<char>,
}

/// What LZ4 data behind a size stands for, where it can be decompressed.
pub uninterp spec fn lz4_content(data: Seq<u8>) -> Option<Seq<u8>>;

/// The SHA-256 digest of `data`.
pub uninterp spec fn sha256(data: Seq<u8>) -> Seq<u8>;

/// How many bytes LZ4 with a size in front of the data can take: the size has 32 bits, and
/// 110 times the length is formed in a `usize`.
pub open spec fn compressible(len: nat) -> bool {
    len <= u32::MAX && len * 110 <= usize::MAX
}

/// Whether so many bytes of 255 stand in `data` from `start` on that their sum is the largest
/// number of 32 bits.
pub open spec fn sums_to_limit(data: Seq<u8>, start: int) -> bool {
    &&& 0 <= start
    &&& start + 0x101_0101 <= data.len()
    &&& forall|i: int| start <= i < start + 0x101_0101 ==> data[i] == 0xff
}

/// The data that can be handed to the decompressor: data that it is known to accept, and
/// data on which no count overflows on the way to an error. It adds up runs of bytes of 255
/// in 32 bits; where `usize` has no more than these, it also needs room for positions and for
/// the size in front.
pub open spec fn decodable(data: Seq<u8>) -> bool {
    ||| lz4_content(data) is Some
    ||| if usize::MAX > u32::MAX {
        forall|start: int| !#[trigger] sums_to_limit(data, start)
    } else {
        data.len() < 0x80_0000 && (data.len() >= 4 ==> data[3] < 0x80)
    }
}

/// The error with which `lz4_flex` refuses data.
#[verifier::external_type_specification]
#[verifier::external_body]
pub struct ExDecompressError(lz4_flex::block::DecompressError);

/// The error with which `String::from_utf8` refuses data.
#[verifier::external_type_specification]
#[verifier::external_body]
pub struct ExFromUtf8Error(std::string::FromUtf8Error);

/// `lz4_flex::compress_prepend_size` compresses `data` and puts its length in front, for
/// `lz4_flex::decompress_size_prepended` to give `data` back. The bytes themselves differ
/// between machines, so nothing else is said of them.
#[verifier::external_body]
fn lz4_compress(data: &[u8]) -> (r: Vec<u8>)
    requires
        compressible(data@.len()),
    ensures
        lz4_content(r@) == Some(data@),
{
    lz4_flex::compress_prepend_size(data)
}

/// `lz4_flex::decompress_size_prepended` reads a length and decompresses what follows. The
/// name `lz4_content` stands for what it gives; it is `None` for the data that it refuses,
/// such as data of no more than the four bytes of the length.
#[verifier::external_body]
fn lz4_decompress(data: &[u8]) -> (r: Result<Vec<u8>, lz4_flex::block::DecompressError>)
    requires
        decodable(data@),
    ensures
        match r {
            Ok(content) => lz4_content(data@) == Some(content@),
            Err(_) => lz4_content(data@) is None,
        },
        data@.len() <= 4 ==> r is Err,
{
    lz4_flex::decompress_size_prepended(data)
}

/// `sha2::Sha256`, fed with the whole of `data`, gives the digest, which has 32 bytes.
#[verifier::external_body]
fn sha256_digest(data: &[u8]) -> (r: Vec<u8>)
    ensures
        r@ == sha256(data@),
        r@.len() == 32,
{
    let mut hasher = sha2::Sha256::new();
    hasher.update(data);
    hasher.finalize().to_vec()
}

/// `String::from_utf8` makes a text of the bytes where they are UTF-8, and refuses them
/// where they are not.
pub assume_specification[ String::from_utf8 ](bytes: Vec<u8>) -> (r: Result<
    String,
    std::string::FromUtf8Error,
>)
    ensures
        match r {
            Ok(text) => valid_utf8(bytes@) && text@ == decode_utf8(bytes@),
            Err(_) => !valid_utf8(bytes@),
        },
;

/// The hexadecimal digit for a number below 16, in lower case.
pub open spec fn hex_digit(n: int) -> char {
    if n < 10 {
        ('0' as int + n) as char
    } else {
        ('a' as int + n - 10) as char
    }
}

/// Two hexadecimal digits for each byte, in lower case.
pub open spec fn hex(bytes: Seq<u8>) -> Seq<char> {
    Seq::new(
        2 * bytes.len(),
        |i: int|
            if i % 2 == 0 {
                hex_digit(bytes[i / 2] as int / 16)
            } else {
                hex_digit(bytes[i / 2] as int % 16)
            },
    )
}

/// The checksum of a text: the digest of its UTF-8 encoding, in hexadecimal digits.
pub open spec fn checksum_of(text: Seq<char>) -> Seq<char> {
    hex(sha256(encode_utf8(text)))
}

/// Writes one hexadecimal digit.
fn hex_char(n: u8) -> (r: char)
    requires
        n < 16,
    ensures
        r == hex_digit(n as int),
{
    if n < 10 {
        (48 + n) as char
    } else {
        (87 + n) as char
    }
}

/// Writes bytes in hexadecimal digits.
pub fn hex_text(bytes: &Vec<u8>) -> (r: String)
    ensures
        r@ == hex(bytes@),
{
    let mut r: String = String::new();
    let mut i: usize = 0;
    while i < bytes.len()
        invariant
            i <= bytes@.len(),
            r@ == hex(bytes@.take(i as int)),
        decreases bytes@.len() - i,
    {
        let b = bytes[i];
        r.push(hex_char(b / 16));
        r.push(hex_char(b % 16));
        assert(hex(bytes@.take(i + 1)) =~= hex(bytes@.take(i as int)).push(
            hex_digit(b as int / 16),
        ).push(hex_digit(b as int % 16)));
        i = i + 1;
    }
    assert(bytes@.take(i as int) =~= bytes@);
    r
}

impl DocumentView {
    /// What reading the document back gives.
    pub open spec fn read(self) -> Result<Seq<char>, DocumentError> {
        match lz4_content(self.data) {
            Some(bytes) => if valid_utf8(bytes) {
                Ok(decode_utf8(bytes))
            } else {
                Err(DocumentError::Utf8)
            },
            None => Err(DocumentError::Decompression),
        }
    }

    /// Whether the document holds `text`: reading gives it back, and size and checksum are
    /// those of `text`.
    pub open spec fn holds(self, text: Seq<char>) -> bool {
        &&& self.read() == Ok::<Seq<char>, DocumentError>(text)
        &&& self.original_size == byte_len(text)
        &&& self.checksum == checksum_of(text)
    }

    /// Whether the document holds some text; its checksum then has 64 digits.
    pub open spec fn intact(self) -> bool {
        self.read() is Ok && self.holds(self.read()->Ok_0) && self.checksum.len() == 64
    }
}

impl View for CompressedDocument {
    type V = DocumentView;

    open spec fn view(&self) -> DocumentView {
        DocumentView {
            data: self.compressed_data@,
            original_size: self.original_size as nat,
            checksum: self.checksum@,
        }
    }
}

/// Whether a text is short enough to be compressed.
pub fn can_compress(content: &str) -> (r: bool)
    ensures
        r == compressible(byte_len(content@)),
{
    let len: usize = content.as_bytes().len();
    len <= 0xffff_ffff && len <= usize::MAX / 110
}

/// Compresses a text.
pub fn compress_document(content: &str) -> (r: CompressedDocument)
    requires
        compressible(byte_len(content@)),
    ensures
        r@.holds(content@),
        r@.intact(),
{
    let bytes = content.as_bytes();
    let compressed_data = lz4_compress(bytes);
    let checksum = hex_text(&sha256_digest(bytes));
    proof {
        encode_utf8_valid_utf8(content@);
        encode_utf8_decode_utf8(content@);
    }
    CompressedDocument { compressed_data, original_size: bytes.len(), checksum }
}

/// Reads a document back.
pub fn decompress_document(doc: &CompressedDocument) -> (r: Result<String, DocumentError>)
    requires
        decodable(doc@.data),
    ensures
        match r {
            Ok(text) => doc@.read() == Ok::<Seq<char>, DocumentError>(text@),
            Err(e) => doc@.read() == Err::<Seq<char>, DocumentError>(e),
        },
        doc@.data.len() <= 4 ==> r == Err::<String, DocumentError>(DocumentError::Decompression),
{
    match lz4_decompress(doc.compressed_data.as_slice()) {
        Ok(bytes) => match String::from_utf8(bytes) {
            Ok(text) => Ok(text),
            Err(_) => Err(DocumentError::Utf8),
        },
        Err(_) => Err(DocumentError::Decompression),
    }
}

/// A document that holds a text reads back as that text, whose size it states.
pub proof fn law_document_reads_back(document: DocumentView, text: Seq<char>)
    requires
        document.holds(text),
    ensures
        document.read() == Ok::<Seq<char>, DocumentError>(text),
        byte_len(text) == document.original_size,
{
}

/// What reading a document gives depends on its data alone. It fails just where the data
/// cannot be decompressed, and where what comes out is not UTF-8.
pub proof fn law_reading_depends_on_the_data(a: DocumentView, b: DocumentView)
    requires
        a.data == b.data,
    ensures
        a.read() == b.read(),
        a.read() == Err::<Seq<char>, DocumentError>(DocumentError::Decompression) <==> lz4_content(
            a.data,
        ) is None,
        a.read() == Err::<Seq<char>, DocumentError>(DocumentError::Utf8) <==> (lz4_content(
            a.data,
        ) is Some && !valid_utf8(lz4_content(a.data)->Some_0)),
{
}

/// The number that a hexadecimal digit in lower case stands for.
pub open spec fn hex_value(c: char) -> int {
    if '0' <= c <= '9' {
        c as int - '0' as int
    } else {
        c as int - 'a' as int + 10
    }
}

/// Each byte is written in two digits, the higher one first, in lower case.
pub proof fn law_digits_give_back_the_bytes(bytes: Seq<u8>)
    ensures
        hex(bytes).len() == 2 * bytes.len(),
        forall|i: int|
            0 <= i < hex(bytes).len() ==> '0' <= #[trigger] hex(bytes)[i] <= '9' || 'a' <= hex(
                bytes,
            )[i] <= 'f',
        forall|i: int|
            0 <= i < bytes.len() ==> #[trigger] bytes[i] == 16 * hex_value(hex(bytes)[2 * i])
                + hex_value(hex(bytes)[2 * i + 1]),
{
    assert forall|i: int| 0 <= i < hex(bytes).len() implies '0' <= #[trigger] hex(bytes)[i] <= '9'
        || 'a' <= hex(bytes)[i] <= 'f' by {
        let b = bytes[i / 2] as int;
        assert(0 <= b / 16 < 16 && 0 <= b % 16 < 16);
    }
    assert forall|i: int| 0 <= i < bytes.len() implies #[trigger] bytes[i] == 16 * hex_value(
        hex(bytes)[2 * i],
    ) + hex_value(hex(bytes)[2 * i + 1]) by {
        let b = bytes[i] as int;
        assert((2 * i) / 2 == i && (2 * i) % 2 == 0);
        assert((2 * i + 1) / 2 == i && (2 * i + 1) % 2 == 1);
        assert(0 <= b / 16 < 16 && 0 <= b % 16 < 16);
    }
}

/// The checksum of a document that holds a text is the SHA-256 digest of the UTF-8 encoding
/// of that text, in hexadecimal digits.
pub proof fn law_checksum_is_the_digest(document: DocumentView, text: Seq<char>)
    requires
        document.holds(text),
    ensures
        document.checksum == hex(sha256(encode_utf8(text))),
{
}

/// Every text whose size has 32 bits can be compressed, as far as 110 times the size can be
/// counted, and no other.
pub proof fn law_texts_of_32_bit_size_are_compressible(len: nat)
    ensures
        compressible(len) <==> len <= 0xffff_ffff && 110 * len <= usize::MAX,
        len <= 39_045_157 ==> compressible(len),
{
}

/// Data that can be decompressed to UTF-8 is read as the text which that encodes.
pub proof fn law_text_is_what_the_data_encodes(document: DocumentView, bytes: Seq<u8>)
    requires
        lz4_content(document.data) == Some(bytes),
        valid_utf8(bytes),
    ensures
        document.read() == Ok::<Seq<char>, DocumentError>(decode_utf8(bytes)),
{
}

} // verus!
