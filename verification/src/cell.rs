//! Database cells. The client's database library compresses some text columns, so that a
//! text can come as a blob.

use vstd::prelude::*;
use vstd::string::*;
use vstd::utf8::*;

use crate::outside::{utf8_text, utf8_text_lossy, zstd_decode};

verus! {

/// A cell as the database gives it. A text is handed on as bytes: it need not be valid
/// UTF-8.
#[derive(Debug)]
pub enum Cell {
    Null,
    Integer(i64),
    Text(Vec<u8>),
    Blob(Vec<u8>),
    /// A floating-point number.
    Real,
}

/// What a [`Cell`] holds.
pub enum CellView {
    Null,
    Integer(i64),
    Text(Seq<u8>),
    Blob(Seq<u8>),
    Real,
}

impl View for Cell {
    type V = CellView;

    open spec fn view(&self) -> CellView {
        match self {
            Cell::Null => CellView::Null,
            Cell::Integer(n) => CellView::Integer(*n),
            Cell::Text(bytes) => CellView::Text(bytes@),
            Cell::Blob(bytes) => CellView::Blob(bytes@),
            Cell::Real => CellView::Real,
        }
    }
}

/// Whether a blob begins with the magic number of a Zstandard frame.
pub open spec fn has_zstd_magic(blob: Seq<u8>) -> bool {
    blob.len() >= 4 && blob[0] == 0x28 && blob[1] == 0xb5 && blob[2] == 0x2f && blob[3] == 0xfd
}

/// The text of a blob: decompressed where it is a Zstandard frame that can be
/// decompressed, as it stands otherwise.
pub open spec fn blob_text(blob: Seq<u8>) -> Seq<char> {
    if has_zstd_magic(blob) && crate::outside::zstd_decoded(blob) is Some {
        crate::outside::utf8_lossy(crate::outside::zstd_decoded(blob)->0)
    } else {
        crate::outside::utf8_lossy(blob)
    }
}

/// The text that a blob stands for, `decoded` being what decompression made of it.
pub fn text_of_blob(blob: &[u8], decoded: Option<Vec<u8>>) -> (text: String)
    ensures
        text@ == crate::outside::utf8_lossy(
            match decoded {
                Some(data) => data@,
                None => blob@,
            },
        ),
        decoded is None && valid_utf8(blob@) ==> text@ == decode_utf8(blob@),
        decoded is Some && valid_utf8(decoded->0@) ==> text@ == decode_utf8(decoded->0@),
{
    match decoded {
        Some(data) => utf8_text_lossy(data.as_slice()),
        None => utf8_text_lossy(blob),
    }
}

/// The text of a blob, decompressed where it is compressed.
pub fn decompress_wcdb_content(blob: &[u8]) -> (text: String)
    ensures
        text@ == blob_text(blob@),
        !has_zstd_magic(blob@) && valid_utf8(blob@) ==> text@ == decode_utf8(blob@),
{
    if blob.len() >= 4 && blob[0] == 0x28 && blob[1] == 0xb5 && blob[2] == 0x2f && blob[3] == 0xfd {
        return text_of_blob(blob, zstd_decode(blob));
    }
    text_of_blob(blob, None)
}

/// The text of a cell read as a text: `None` where it is neither null nor valid UTF-8
/// text, and empty where it is null.
pub open spec fn plain_text(cell: CellView) -> Option<Seq<char>> {
    match cell {
        CellView::Null => Some(seq![]),
        CellView::Text(bytes) => if valid_utf8(bytes) {
            Some(decode_utf8(bytes))
        } else {
            None
        },
        _ => None,
    }
}

fn copied(bytes: &Vec<u8>) -> (copy: Vec<u8>)
    ensures
        copy@ == bytes@,
{
    let mut copy: Vec<u8> = Vec::new();
    copy.extend_from_slice(bytes.as_slice());
    proof {
        assert(copy@ =~= bytes@);
    }
    copy
}

/// The text of a cell read as a text, empty where it is null.
pub fn read_text(cell: &Cell) -> (text: Option<String>)
    ensures
        crate::text::text_of(text) == plain_text(cell@),
{
    match cell {
        Cell::Null => {
            let empty = String::new();
            proof {
                assert(empty@ =~= Seq::<char>::empty());
            }
            Some(empty)
        },
        Cell::Text(bytes) => utf8_text(copied(bytes)),
        _ => None,
    }
}

/// The text of a cell that may be compressed; empty where there is none.
pub open spec fn stored_text(cell: CellView) -> Seq<char> {
    match plain_text(cell) {
        Some(text) => text,
        None => match cell {
            CellView::Blob(blob) => blob_text(blob),
            _ => seq![],
        },
    }
}

/// The text of a cell that may be compressed; empty where there is none.
pub fn wcdb_get_text(cell: &Cell) -> (text: String)
    ensures
        text@ == stored_text(cell@),
{
    match read_text(cell) {
        Some(text) => text,
        None => match cell {
            Cell::Blob(blob) => decompress_wcdb_content(blob.as_slice()),
            _ => {
                let empty = String::new();
                proof {
                    assert(empty@ =~= Seq::<char>::empty());
                }
                empty
            },
        },
    }
}

/// The text of a cell that is never compressed; empty where there is none.
pub open spec fn uncompressed_text(cell: CellView) -> Seq<char> {
    match plain_text(cell) {
        Some(text) => text,
        None => match cell {
            CellView::Blob(blob) => crate::outside::utf8_lossy(blob),
            _ => seq![],
        },
    }
}

/// The text of a cell that is never compressed; empty where there is none.
pub fn read_uncompressed(cell: &Cell) -> (text: String)
    ensures
        text@ == uncompressed_text(cell@),
{
    match read_text(cell) {
        Some(text) => text,
        None => match cell {
            Cell::Blob(blob) => utf8_text_lossy(blob.as_slice()),
            _ => {
                let empty = String::new();
                proof {
                    assert(empty@ =~= Seq::<char>::empty());
                }
                empty
            },
        },
    }
}

/// An integer that may be null, which counts as zero; `None` where the cell holds
/// something else.
pub open spec fn integer_or_zero(cell: CellView) -> Option<i64> {
    match cell {
        CellView::Null => Some(0i64),
        CellView::Integer(n) => Some(n),
        _ => None,
    }
}

/// An integer that may be null, which counts as zero.
pub fn read_integer(cell: &Cell) -> (value: Option<i64>)
    ensures
        value == integer_or_zero(cell@),
{
    match cell {
        Cell::Null => Some(0),
        Cell::Integer(n) => Some(*n),
        _ => None,
    }
}

// ---------------------------------------------------------------------------
// Laws of cells
// ---------------------------------------------------------------------------

/// A text that is stored as one is read as it is, whether the column may be compressed or
/// not.
pub proof fn texts_are_stored_as_they_are(text: Seq<char>)
    ensures
        plain_text(CellView::Text(encode_utf8(text))) == Some(text),
        stored_text(CellView::Text(encode_utf8(text))) == text,
        uncompressed_text(CellView::Text(encode_utf8(text))) == text,
{
    encode_utf8_valid_utf8(text);
    encode_utf8_decode_utf8(text);
}

/// What a column that may be compressed holds as a blob is what its frame holds, where it
/// begins like a frame and can be decompressed; otherwise, and in a column that is never
/// compressed, it is what the blob itself holds. Null, numbers and broken texts are empty.
pub proof fn blobs_are_decompressed(blob: Seq<u8>, n: i64)
    ensures
        has_zstd_magic(blob) && crate::outside::zstd_decoded(blob) is Some ==> stored_text(
            CellView::Blob(blob),
        ) == crate::outside::utf8_lossy(crate::outside::zstd_decoded(blob)->0),
        crate::outside::zstd_decoded(blob) is None ==> stored_text(CellView::Blob(blob))
            == crate::outside::utf8_lossy(blob),
        blob.len() < 4 || blob.take(4) != seq![0x28u8, 0xb5, 0x2f, 0xfd] ==> stored_text(
            CellView::Blob(blob),
        ) == crate::outside::utf8_lossy(blob),
        uncompressed_text(CellView::Blob(blob)) == crate::outside::utf8_lossy(blob),
        stored_text(CellView::Null).len() == 0,
        uncompressed_text(CellView::Null).len() == 0,
        stored_text(CellView::Integer(n)).len() == 0,
        uncompressed_text(CellView::Integer(n)).len() == 0,
        !valid_utf8(blob) ==> stored_text(CellView::Text(blob)).len() == 0 && uncompressed_text(
            CellView::Text(blob),
        ).len() == 0,
        integer_or_zero(CellView::Integer(n)) == Some(n),
        integer_or_zero(CellView::Null) == Some(0i64),
        integer_or_zero(CellView::Text(blob)) is None,
        integer_or_zero(CellView::Blob(blob)) is None,
{
    if has_zstd_magic(blob) {
        assert(blob.take(4) =~= seq![0x28u8, 0xb5, 0x2f, 0xfd]);
    }
}

} // verus!
