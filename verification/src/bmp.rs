//! The layout of an ICO file and of the BMP images it may hold, as far as
//! needed to tell whether the pixels of a palette image stay inside the
//! colour table the image declares.
use vstd::prelude::*;

verus! {

/// The little-endian unsigned 16-bit field at `at`.
pub open spec fn le16(b: Seq<u8>, at: int) -> int {
    b[at] as int + 256 * (b[at + 1] as int)
}

/// The little-endian unsigned 32-bit field at `at`.
pub open spec fn le32(b: Seq<u8>, at: int) -> int {
    b[at] as int + 256 * (b[at + 1] as int) + 65536 * (b[at + 2] as int) + 16777216 * (
    b[at + 3] as int)
}

/// The bytes of the image at `index` of an ICO file: the span that its
/// directory entry (16 bytes each, after a 6-byte header) gives by size and
/// offset; empty where the file is too short for the entry or the span.
pub open spec fn ico_entry_bytes(bytes: Seq<u8>, index: int) -> Seq<u8> {
    let at = 6 + 16 * index;
    if 0 <= index && at + 16 <= bytes.len() {
        let size = le32(bytes, at + 8);
        let offset = le32(bytes, at + 12);
        if offset + size <= bytes.len() {
            bytes.subrange(offset, offset + size)
        } else {
            Seq::empty()
        }
    } else {
        Seq::empty()
    }
}

/// The image data begins with the PNG signature's first four bytes.
pub open spec fn starts_as_png(d: Seq<u8>) -> bool {
    d.len() >= 4 && d[0] == 0x89 && d[1] == 0x50 && d[2] == 0x4E && d[3] == 0x47
}

/// How many colours a palette image of this depth can name.
pub open spec fn palette_capacity(bpp: int) -> int {
    if bpp == 1 {
        2
    } else if bpp == 4 {
        16
    } else if bpp == 8 {
        256
    } else {
        0
    }
}

/// The bytes a row of pixels takes, padded to a multiple of four.
pub open spec fn row_stride(width: int, bpp: int) -> int {
    let data = if bpp == 8 {
        width
    } else if bpp == 4 {
        (width + 1) / 2
    } else {
        (width + 7) / 8
    };
    ((data + 3) / 4) * 4
}

/// Where in its row the byte of pixel `c` lies.
pub open spec fn pixel_offset(c: int, bpp: int) -> int {
    if bpp == 8 {
        c
    } else if bpp == 4 {
        c / 2
    } else {
        c / 8
    }
}

/// The palette index of pixel `c`, from the byte that holds it (high bits
/// first).
pub open spec fn pixel_index(byte: u8, c: int, bpp: int) -> u8 {
    if bpp == 8 {
        byte
    } else if bpp == 4 {
        if c % 2 == 0 {
            byte >> 4u8
        } else {
            byte & 0x0fu8
        }
    } else {
        (byte >> ((7 - c % 8) as u8)) & 1u8
    }
}

/// The width of a BMP image.
pub open spec fn bmp_width(d: Seq<u8>) -> int {
    le32(d, 4)
}

/// The height of a BMP image in an ICO file (its header counts the mask rows too).
pub open spec fn bmp_height(d: Seq<u8>) -> int {
    le32(d, 8) / 2
}

/// The bits per pixel of a BMP image.
pub open spec fn bmp_depth(d: Seq<u8>) -> int {
    le16(d, 14)
}

/// The number of colours a BMP image's table declares.
pub open spec fn bmp_colors_used(d: Seq<u8>) -> int {
    le32(d, 32)
}

/// The data is a BMP image whose header is sound, whose colour table is
/// present and shorter than its depth allows, and whose size is within
/// bounds: a reader then goes on to look its pixels up in the table.
pub open spec fn bmp_reads_short_palette(d: Seq<u8>) -> bool {
    let used = bmp_colors_used(d);
    &&& !starts_as_png(d)
    &&& d.len() >= 40
    &&& le32(d, 0) == 40
    &&& 1 <= bmp_width(d) < 0x8000_0000
    &&& le32(d, 8) < 0x8000_0000
    &&& le32(d, 8) % 2 == 0
    &&& bmp_height(d) >= 1
    &&& palette_capacity(bmp_depth(d)) > 0
    &&& 1 <= used < palette_capacity(bmp_depth(d))
    &&& d.len() >= 40 + 4 * used
    &&& bmp_width(d) * bmp_height(d) <= 0x400_0000
}

/// Pixel `c` of row `r` names a colour of the table, or lies beyond the data.
pub open spec fn pixel_fits(d: Seq<u8>, r: int, c: int) -> bool {
    let bpp = bmp_depth(d);
    let pos = 40 + 4 * bmp_colors_used(d) + r * row_stride(bmp_width(d), bpp) + pixel_offset(c, bpp);
    pos < d.len() ==> pixel_index(d[pos], c, bpp) < bmp_colors_used(d)
}

/// Every pixel that a reader looks up in the colour table names a colour
/// that the table holds.
pub open spec fn bmp_palette_fits(d: Seq<u8>) -> bool {
    bmp_reads_short_palette(d) ==> forall|r: int, c: int|
        0 <= r < bmp_height(d) && 0 <= c < bmp_width(d) ==> #[trigger] pixel_fits(d, r, c)
}

/// Reads a little-endian 16-bit field.
fn read_le16(d: &[u8], at: usize) -> (v: u64)
    requires
        at + 2 <= d@.len(),
    ensures
        v == le16(d@, at as int),
{
    d[at] as u64 + 256 * (d[at + 1] as u64)
}

/// Reads a little-endian 32-bit field.
fn read_le32(d: &[u8], at: usize) -> (v: u64)
    requires
        at + 4 <= d@.len(),
    ensures
        v == le32(d@, at as int),
{
    d[at] as u64 + 256 * (d[at + 1] as u64) + 65536 * (d[at + 2] as u64) + 16777216 * (d[at
        + 3] as u64)
}

/// Rows further down lie further into the data.
proof fn lemma_rows_advance(first: int, stride: int, r: int, r2: int, off: int)
    requires
        0 <= r <= r2,
        stride >= 0,
        off >= 0,
    ensures
        first + r * stride <= first + r2 * stride + off,
{
    assert(r * stride <= r2 * stride) by (nonlinear_arith)
        requires
            0 <= r <= r2,
            stride >= 0,
    ;
}

/// Whether the palette image held in `d[start..start + len]` only names
/// colours of its table (true for any other kind of data).
pub fn palette_fits(d: &[u8], start: usize, len: usize) -> (ok: bool)
    requires
        start + len <= d@.len(),
    ensures
        ok == bmp_palette_fits(d@.subrange(start as int, start + len)),
{
    let ghost s = d@.subrange(start as int, start + len);
    if len < 40 {
        return true;
    }
    if d[start] == 0x89 && d[start + 1] == 0x50 && d[start + 2] == 0x4E && d[start + 3] == 0x47 {
        return true;
    }
    let header = read_le32(d, start);
    let width = read_le32(d, start + 4);
    let height2 = read_le32(d, start + 8);
    let bpp = read_le16(d, start + 14);
    let used = read_le32(d, start + 32);
    proof {
        assert(header == le32(s, 0));
        assert(width == le32(s, 4));
        assert(height2 == le32(s, 8));
        assert(bpp == le16(s, 14));
        assert(used == le32(s, 32));
    }
    let capacity: u64 = if bpp == 1 {
        2
    } else if bpp == 4 {
        16
    } else if bpp == 8 {
        256
    } else {
        0
    };
    let height = height2 / 2;
    if header != 40 || width < 1 || width >= 0x8000_0000 || height2 >= 0x8000_0000 || height2 % 2
        != 0 || height < 1 || capacity == 0 || used < 1 || used >= capacity || (len as u64) < 40
        + 4 * used {
        return true;
    }
    assert(width * height < 0x8000_0000 * 0x4000_0000) by (nonlinear_arith)
        requires
            width < 0x8000_0000,
            height < 0x4000_0000,
    ;
    if width * height > 0x400_0000 {
        return true;
    }
    assert(bmp_reads_short_palette(s));
    let row_data: u64 = if bpp == 8 {
        width
    } else if bpp == 4 {
        (width + 1) / 2
    } else {
        (width + 7) / 8
    };
    let stride: u64 = ((row_data + 3) / 4) * 4;
    assert(stride == row_stride(width as int, bpp as int));
    let first: u64 = 40 + 4 * used;
    let mut row_base: u128 = first as u128;
    let mut r: u64 = 0;
    while r < height
        invariant
            s == d@.subrange(start as int, start + len),
            start + len <= d@.len(),
            bmp_reads_short_palette(s),
            width == bmp_width(s),
            height == bmp_height(s),
            bpp == bmp_depth(s),
            used == bmp_colors_used(s),
            stride == row_stride(width as int, bpp as int),
            first == 40 + 4 * used,
            r <= height,
            row_base == first + r * stride,
            forall|r1: int, c1: int|
                0 <= r1 < r && 0 <= c1 < width ==> #[trigger] pixel_fits(s, r1, c1),
        decreases height - r,
    {
        if row_base >= len as u128 {
            assert forall|r1: int, c1: int| 0 <= r1 < height && 0 <= c1 < width implies #[trigger] pixel_fits(
                s,
                r1,
                c1,
            ) by {
                if r1 >= r {
                    lemma_rows_advance(first as int, stride as int, r as int, r1, pixel_offset(c1, bpp as int));
                }
            }
            return true;
        }
        let mut c: u64 = 0;
        while c < width
            invariant
                s == d@.subrange(start as int, start + len),
                start + len <= d@.len(),
                bmp_reads_short_palette(s),
                width == bmp_width(s),
                height == bmp_height(s),
                bpp == bmp_depth(s),
                used == bmp_colors_used(s),
                stride == row_stride(width as int, bpp as int),
                first == 40 + 4 * used,
                r < height,
                row_base == first + r * stride,
                row_base < len,
                c <= width,
                forall|c1: int| 0 <= c1 < c ==> #[trigger] pixel_fits(s, r as int, c1),
            decreases width - c,
        {
            let offset: u64 = if bpp == 8 {
                c
            } else if bpp == 4 {
                c / 2
            } else {
                c / 8
            };
            let pos: u128 = row_base + offset as u128;
            if pos < len as u128 {
                let p = pos as usize;
                assert(p == pos);
                assert(p < len);
                let total = d.len();
                assert(start + p < total);
                let byte = d[start + p];
                assert(byte == s[pos as int]);
                let index: u8 = if bpp == 8 {
                    byte
                } else if bpp == 4 {
                    if c % 2 == 0 {
                        byte >> 4u8
                    } else {
                        byte & 0x0fu8
                    }
                } else {
                    (byte >> ((7 - c % 8) as u8)) & 1u8
                };
                assert(index == pixel_index(byte, c as int, bpp as int));
                if index as u64 >= used {
                    assert(!pixel_fits(s, r as int, c as int));
                    return false;
                }
            }
            assert(pixel_fits(s, r as int, c as int));
            c = c + 1;
        }
        assert(forall|c1: int| 0 <= c1 < width ==> #[trigger] pixel_fits(s, r as int, c1));
        assert((r + 1) * stride == r * stride + stride) by (nonlinear_arith);
        row_base = row_base + stride as u128;
        r = r + 1;
    }
    true
}

/// Whether the image at `index` of an ICO file, where it is a palette
/// image, only names colours of its table.
pub fn entry_palette_fits(bytes: &[u8], index: u16) -> (ok: bool)
    ensures
        ok == bmp_palette_fits(ico_entry_bytes(bytes@, index as int)),
{
    let at: usize = 6 + 16 * (index as usize);
    if at + 16 > bytes.len() {
        assert(ico_entry_bytes(bytes@, index as int) =~= Seq::<u8>::empty());
        return true;
    }
    let size = read_le32(bytes, at + 8);
    let offset = read_le32(bytes, at + 12);
    if offset + size > bytes.len() as u64 {
        assert(ico_entry_bytes(bytes@, index as int) =~= Seq::<u8>::empty());
        return true;
    }
    palette_fits(bytes, offset as usize, size as usize)
}

} // verus!
