//! Bitmap extractor: turns an embedded headerless pixel blob into a
//! standalone raster file by prepending a 14-byte file header.
//!
//! The blob begins with a 4-byte header-size field.  Only the 40-byte legacy
//! info-header layout is supported; any other size leaves the blob
//! unprocessed.  The file header is the 2-byte signature, the little-endian
//! total size (blob length plus 14), two reserved zero fields and the pixel
//! data offset (header plus palette; files with 16 bits per pixel and above
//! carry no palette).

use vstd::prelude::*;

use crate::reader::{le16_at, le32_at};

verus! {

/// The four little-endian bytes of a 32-bit value.
pub open spec fn u32_le_bytes(v: u32) -> Seq<u8> {
    seq![
        (v % 0x100) as u8,
        ((v / 0x100) % 0x100) as u8,
        ((v / 0x1_0000) % 0x100) as u8,
        ((v / 0x100_0000) % 0x100) as u8,
    ]
}

/// Whether the blob is processed at all: it must hold the whole 40-byte
/// info header and declare exactly that layout.
pub open spec fn bitmap_accepted(blob: Seq<u8>) -> bool {
    blob.len() >= 40 && le32_at(blob, 0) == 40
}

/// The pixel-data offset of the standalone file: file header plus info
/// header, plus the palette when there is one (fewer than 16 bits per pixel
/// means `2^bits` palette entries of 4 bytes each).
pub open spec fn bitmap_pixel_offset(blob: Seq<u8>) -> int {
    let bits = le16_at(blob, 14);
    if bits >= 16 {
        54int
    } else {
        54int + ((1u32 << (bits as u32)) as int) * 4
    }
}

/// The standalone raster file: signature, total size, two reserved zero
/// fields, pixel-data offset, then the original blob.
pub open spec fn bitmap_file(blob: Seq<u8>) -> Seq<u8> {
    seq![0x42u8, 0x4Du8] + u32_le_bytes((blob.len() + 14) as u32) + seq![0u8, 0u8]
        + seq![0u8, 0u8] + u32_le_bytes(bitmap_pixel_offset(blob) as u32) + blob
}

/// The extractor never grows or shrinks the pixel data: whenever a blob is
/// accepted, the standalone file is exactly 14 bytes longer than the blob.
pub proof fn lemma_bitmap_file_len(blob: Seq<u8>)
    requires
        bitmap_accepted(blob),
    ensures
        bitmap_file(blob).len() == blob.len() + 14,
{
}

/// Read the little-endian 16-bit value at `pos` (bounds known to the caller).
fn get_u16_at(buf: &[u8], pos: usize) -> (r: u16)
    requires
        pos + 2 <= buf@.len(),
    ensures
        r == le16_at(buf@, pos as int),
{
    let b0: u16 = buf[pos] as u16;
    let b1: u16 = buf[pos + 1] as u16;
    b0 + b1 * 0x100
}

/// Read the little-endian 32-bit value at `pos` (bounds known to the caller).
fn get_u32_at(buf: &[u8], pos: usize) -> (r: u32)
    requires
        pos + 4 <= buf@.len(),
    ensures
        r == le32_at(buf@, pos as int),
{
    let b0: u32 = buf[pos] as u32;
    let b1: u32 = buf[pos + 1] as u32;
    let b2: u32 = buf[pos + 2] as u32;
    let b3: u32 = buf[pos + 3] as u32;
    b0 + b1 * 0x100 + b2 * 0x1_0000 + b3 * 0x100_0000
}

fn push_u32_le(out: &mut Vec<u8>, v: u32)
    ensures
        final(out)@ == old(out)@ + u32_le_bytes(v),
{
    out.push((v % 0x100) as u8);
    out.push(((v / 0x100) % 0x100) as u8);
    out.push(((v / 0x1_0000) % 0x100) as u8);
    out.push(((v / 0x100_0000) % 0x100) as u8);
    proof {
        assert(out@ =~= old(out)@ + u32_le_bytes(v));
    }
}

/// Build the standalone raster file for an accepted blob; a blob with any
/// other header-size field is left unprocessed.
pub fn build_bitmap_file(blob: &Vec<u8>) -> (r: Option<Vec<u8>>)
    requires
        blob@.len() <= 0xFFFF,
    ensures
        bitmap_accepted(blob@) ==> (r matches Some(d) && d@ == bitmap_file(blob@) && d@.len()
            == blob@.len() + 14),
        !bitmap_accepted(blob@) ==> r is None,
{
    if blob.len() < 4 {
        return None;
    }
    let dib_size = get_u32_at(blob.as_slice(), 0);
    if dib_size != 40 {
        return None;
    }
    if blob.len() < 40 {
        return None;
    }
    let pixel_bits = get_u16_at(blob.as_slice(), 14);
    let offset: u32 = if pixel_bits >= 16 {
        14 + 40
    } else {
        let bits: u32 = pixel_bits as u32;
        proof {
            assert(bits < 16 ==> (1u32 << bits) <= 0x8000) by (bit_vector);
        }
        14 + 40 + (1u32 << bits) * 4
    };
    let total: u32 = blob.len() as u32 + 14;
    let mut data: Vec<u8> = Vec::new();
    data.push(0x42u8);
    data.push(0x4Du8);
    push_u32_le(&mut data, total);
    data.push(0u8);
    data.push(0u8);
    data.push(0u8);
    data.push(0u8);
    push_u32_le(&mut data, offset);
    let mut k: usize = 0;
    proof {
        assert(data@ =~= seq![0x42u8, 0x4Du8] + u32_le_bytes(total) + seq![0u8, 0u8]
            + seq![0u8, 0u8] + u32_le_bytes(offset) + blob@.subrange(0, 0));
    }
    while k < blob.len()
        invariant
            k <= blob@.len(),
            data@ == seq![0x42u8, 0x4Du8] + u32_le_bytes(total) + seq![0u8, 0u8]
                + seq![0u8, 0u8] + u32_le_bytes(offset) + blob@.subrange(0, k as int),
        decreases blob@.len() - k,
    {
        data.push(blob[k]);
        k = k + 1;
        proof {
            assert(data@ =~= seq![0x42u8, 0x4Du8] + u32_le_bytes(total) + seq![0u8, 0u8]
                + seq![0u8, 0u8] + u32_le_bytes(offset) + blob@.subrange(0, k as int));
        }
    }
    proof {
        assert(blob@.subrange(0, blob@.len() as int) =~= blob@);
        assert(data@ =~= bitmap_file(blob@));
    }
    Some(data)
}

} // verus!
