//! The window icon: the first image of an ICO file, as RGBA pixels.
use vstd::prelude::*;
use crate::bmp::{bmp_palette_fits, entry_palette_fits, ico_entry_bytes};

verus! {

/// An image as RGBA bytes, row by row from the top, with its size in pixels.
#[derive(Clone, Debug, PartialEq, Eq)]
pub struct IconData {
    pub rgba: Vec<u8>,
    pub width: u32,
    pub height: u32,
}

/// Why no icon could be made.
#[derive(Clone, Copy, Debug, PartialEq, Eq, Structural)]
pub enum IconError {
    /// The bytes are not an ICO file.
    NotIco,
    /// The ICO file holds no image.
    NoImages,
    /// The first image of the ICO file cannot be decoded.
    Undecodable,
    /// The first image of the ICO file is a palette image with a pixel that
    /// names a colour its table does not hold.
    PaletteOutOfRange,
}

/// How many images the `ico` crate finds in an ICO file, `None` where it
/// cannot read the file.
pub uninterp spec fn ico_image_count(bytes: Seq<u8>) -> Option<nat>;

/// The pixels, width and height the `ico` crate decodes from the image at
/// `index` of an ICO file, `None` where it cannot decode it.
pub uninterp spec fn ico_image(bytes: Seq<u8>, index: nat) -> Option<(Seq<u8>, u32, u32)>;

/// Calls `ico::IconDir::read` on the bytes and counts the entries of the
/// directory it returns.
///
/// Claimed of it: the outcome is a function of the bytes alone.
#[verifier::external_body]
fn read_ico_image_count(bytes: &[u8]) -> (count: Option<usize>)
    ensures
        count matches Some(n) ==> ico_image_count(bytes@) == Some(n as nat),
        count is None ==> ico_image_count(bytes@) is None,
{
    match ico::IconDir::read(std::io::Cursor::new(bytes)) {
        Ok(dir) => Some(dir.entries().len()),
        Err(_) => None,
    }
}

/// Calls `ico::IconDirEntry::decode` on the entry at `index` of the
/// directory that `ico::IconDir::read` makes of the bytes, and takes the
/// pixels, width and height out of the image.
///
/// Claimed of it: the outcome is a function of the bytes and the index; an
/// image holds four bytes per pixel (both constructors of `ico::IconImage`
/// keep its data at `4 * width * height` bytes).
///
/// Left out by `requires`: a BMP entry whose pixels name a colour beyond the
/// table it declares, where `IconImage::read_bmp` indexes its colour table
/// out of bounds and panics. Once `IconDir::read` has succeeded, the entry's
/// data are the span its directory entry gives, `ico_entry_bytes`.
#[verifier::external_body]
fn decode_ico_image(bytes: &[u8], index: usize) -> (image: Option<IconData>)
    requires
        ico_image_count(bytes@) matches Some(n) && index < n,
        bmp_palette_fits(ico_entry_bytes(bytes@, index as int)),
    ensures
        image matches Some(d) ==> ico_image(bytes@, index as nat) == Some(
            (d.rgba@, d.width, d.height),
        ),
        image is None ==> ico_image(bytes@, index as nat) is None,
        image matches Some(d) ==> d.rgba@.len() == 4 * d.width * d.height,
{
    match ico::IconDir::read(std::io::Cursor::new(bytes)) {
        Ok(dir) => match dir.entries()[index].decode() {
            Ok(img) => Some(
                IconData { width: img.width(), height: img.height(), rgba: img.into_rgba_data() },
            ),
            Err(_) => None,
        },
        Err(_) => None,
    }
}

/// Makes the window icon from an ICO file: its first image.
pub fn generate_icon_data(ico_bytes: &[u8]) -> (icon: Result<IconData, IconError>)
    ensures
        ico_image_count(ico_bytes@) matches Some(n) && n > 0 && !bmp_palette_fits(
            ico_entry_bytes(ico_bytes@, 0),
        ) ==> icon == Err::<IconData, IconError>(IconError::PaletteOutOfRange),
        ico_image_count(ico_bytes@) is None ==> icon == Err::<IconData, IconError>(
            IconError::NotIco,
        ),
        ico_image_count(ico_bytes@) == Some(0nat) ==> icon == Err::<IconData, IconError>(
            IconError::NoImages,
        ),
        ico_image_count(ico_bytes@) matches Some(n) && n > 0 && bmp_palette_fits(
            ico_entry_bytes(ico_bytes@, 0),
        ) ==> match ico_image(ico_bytes@, 0) {
            Some(img) => icon matches Ok(d) && (d.rgba@, d.width, d.height) == img
                && d.rgba@.len() == 4 * d.width * d.height,
            None => icon == Err::<IconData, IconError>(IconError::Undecodable),
        },
{
    match read_ico_image_count(ico_bytes) {
        None => Err(IconError::NotIco),
        Some(n) => {
            if n == 0 {
                Err(IconError::NoImages)
            } else if !entry_palette_fits(ico_bytes, 0) {
                Err(IconError::PaletteOutOfRange)
            } else {
                match decode_ico_image(ico_bytes, 0) {
                    Some(d) => Ok(d),
                    None => Err(IconError::Undecodable),
                }
            }
        },
    }
}

} // verus!
