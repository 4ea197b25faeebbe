//! From the bytes of an image file to a square grid of intensities.
//!
//! Decoding, resampling and the conversion to grey are the work of the
//! `image` crate. What this module states of them is believed, not proved;
//! each such item says so.

use vstd::prelude::*;
use image::{DynamicImage, GenericImageView, ImageError};
use crate::index::ImageKind;
use crate::phash::bits::ConfigError;
use crate::phash::is_grid;

verus! {

#[verifier::external_type_specification]
#[verifier::external_body]
pub struct ExDynamicImage(image::DynamicImage);

#[verifier::external_type_specification]
#[verifier::external_body]
pub struct ExImageError(image::ImageError);

/// What an image holds, as far as fingerprints are concerned: for each
/// column `x` and row `y`, `intensities(img)[x][y]` is the blue channel of
/// the pixel at `(x, y)` read as an eight-bit colour, which for a grey image
/// is its brightness. The outer length is the width of the image, and every
/// column is as long as the image is high.
pub uninterp spec fn intensities(img: DynamicImage) -> Seq<Seq<u8>>;

/// The resampling filters of the `image` crate.
#[derive(Clone, Copy, Debug, PartialEq, Eq, Structural)]
pub enum Filter {
    Nearest,
    Triangle,
    CatmullRom,
    Gaussian,
    Lanczos3,
}

/// Why a file gave no grid of intensities.
#[derive(Debug)]
pub enum HashError {
    /// The bytes are not an image of the announced format; the text is the
    /// decoder's account of it.
    Decode(String),
    /// The image has no pixels.
    Empty,
    /// The image is too wide to be resampled on this machine.
    TooLarge,
    /// The sizes that fingerprints are taken with are unusable.
    Config(ConfigError),
}

/// What decoding gives for `bytes` read as an image of the format `kind`:
/// nothing where the bytes do not decode, else the intensities of the
/// image that they hold. The decoder is handed the bytes and the format and
/// nothing else: it reads no file and no setting, and its limits are the
/// ones built in.
pub uninterp spec fn decoded_as(bytes: Seq<u8>, kind: ImageKind) -> Option<Seq<Seq<u8>>>;

/// Decodes an image held in memory (`image::load_from_memory_with_format`).
/// Claimed: the outcome is the one that [`decoded_as`] names for these bytes
/// and this format, a failure where it names nothing and else an image of
/// the intensities that it names. Whether bytes decode is not stated.
#[verifier::external_body]
pub(crate) fn decode(bytes: &[u8], kind: ImageKind) -> (decoded: Result<DynamicImage, ImageError>)
    ensures
        match decoded {
            Ok(img) => decoded_as(bytes@, kind) == Some(intensities(img)),
            Err(_) => decoded_as(bytes@, kind) is None,
        },
{
    let format = match kind {
        ImageKind::Png => image::ImageFormat::Png,
        ImageKind::Jpeg => image::ImageFormat::Jpeg,
    };
    image::load_from_memory_with_format(bytes, format)
}

/// The decoder's account of a failure (`Display` of `image::ImageError`).
/// Nothing is claimed of the text.
#[verifier::external_body]
fn reason(error: &ImageError) -> (text: String) {
    format!("{}", error)
}

/// Width and height of an image (`GenericImageView::dimensions`). Claimed:
/// they are the number of columns of the image and the length of each.
#[verifier::external_body]
fn dimensions(img: &DynamicImage) -> (size: (u32, u32))
    ensures
        is_grid(intensities(*img), size.0 as int, size.1 as int),
{
    img.dimensions()
}

/// Whether `out` is what resampling `source` to `width` by `height` pixels
/// with `filter` gave. This relates a result to what it was made from and
/// says no more: the arithmetic of some filters is not the same on every
/// machine, so that one source may have more than one such result.
pub uninterp spec fn resampled(
    source: DynamicImage,
    width: u32,
    height: u32,
    filter: Filter,
    out: DynamicImage,
) -> bool;

/// Whether `out` is what the conversion of `source` to grey gave.
pub uninterp spec fn greyed(source: DynamicImage, out: DynamicImage) -> bool;

/// Whether `grid` holds the intensities of a normal form of `img`: of an
/// image that came of resampling `img` to `size` by `size` pixels with the
/// Lanczos filter, width and height scaled each on its own, and of turning
/// what came of that to grey.
pub open spec fn is_normal_form(img: DynamicImage, size: u32, grid: Seq<Seq<u8>>) -> bool {
    exists|mid: DynamicImage, out: DynamicImage|
        #![trigger resampled(img, size, size, Filter::Lanczos3, mid), greyed(mid, out)]
        resampled(img, size, size, Filter::Lanczos3, mid) && greyed(mid, out) && intensities(out)
            == grid
}

/// Resamples an image to `width` by `height` pixels without regard to its
/// proportions (`DynamicImage::resize_exact`). Claimed: the result has
/// exactly these dimensions, and is what [`resampled`] names for this
/// source, these dimensions and this filter. The crate allocates four samples for each pixel
/// of an intermediate image as wide as the source and as high as the result,
/// and at most as many for the result, and panics where such a count
/// exceeds `usize`; that is ruled out here.
#[verifier::external_body]
fn resize_exact(img: &DynamicImage, width: u32, height: u32, filter: Filter) -> (out: DynamicImage)
    requires
        4 * intensities(*img).len() * height <= usize::MAX,
        4 * width * height <= usize::MAX,
    ensures
        is_grid(intensities(out), width as int, height as int),
        resampled(*img, width, height, filter, out),
{
    let filter = match filter {
        Filter::Nearest => image::imageops::FilterType::Nearest,
        Filter::Triangle => image::imageops::FilterType::Triangle,
        Filter::CatmullRom => image::imageops::FilterType::CatmullRom,
        Filter::Gaussian => image::imageops::FilterType::Gaussian,
        Filter::Lanczos3 => image::imageops::FilterType::Lanczos3,
    };
    img.resize_exact(width, height, filter)
}

/// The grey version of an image (`DynamicImage::grayscale`). Claimed: it has
/// the dimensions of the image it was made from, and is what [`greyed`]
/// names for it.
#[verifier::external_body]
fn grayscale(img: &DynamicImage) -> (out: DynamicImage)
    ensures
        greyed(*img, out),
        intensities(out).len() == intensities(*img).len(),
        forall|x: int|
            0 <= x < intensities(*img).len() ==> (#[trigger] intensities(out)[x]).len()
                == intensities(*img)[x].len(),
{
    img.grayscale()
}

/// The intensity of one pixel (`GenericImageView::get_pixel`, of which the
/// blue channel is taken). The crate panics outside the image; that is ruled
/// out here.
#[verifier::external_body]
fn find_xy_value(img: &DynamicImage, x: u32, y: u32) -> (value: u8)
    requires
        x < intensities(*img).len(),
        y < intensities(*img)[x as int].len(),
    ensures
        value == intensities(*img)[x as int][y as int],
{
    img.get_pixel(x, y).0[2]
}

/// Reads the intensities of an image into a grid, column by column.
pub fn find_image_matrix(img: &DynamicImage) -> (matrix: Vec<Vec<u8>>)
    ensures
        matrix.deep_view() == intensities(*img),
{
    let (x_size, y_size) = dimensions(img);
    let mut matrix: Vec<Vec<u8>> = Vec::new();
    let mut x: u32 = 0;
    while x < x_size
        invariant
            0 <= x <= x_size,
            is_grid(intensities(*img), x_size as int, y_size as int),
            matrix.deep_view() == intensities(*img).take(x as int),
        decreases x_size - x,
    {
        let mut column: Vec<u8> = Vec::new();
        let mut y: u32 = 0;
        while y < y_size
            invariant
                0 <= x < x_size,
                0 <= y <= y_size,
                is_grid(intensities(*img), x_size as int, y_size as int),
                column@ == intensities(*img)[x as int].take(y as int),
            decreases y_size - y,
        {
            column.push(find_xy_value(img, x, y));
            proof {
                assert(intensities(*img)[x as int].take(y + 1) =~= intensities(*img)[x as int].take(
                    y as int,
                ).push(intensities(*img)[x as int][y as int]));
            }
            y += 1;
        }
        proof {
            assert(intensities(*img)[x as int].take(y_size as int) =~= intensities(*img)[x as int]);
            assert(column.deep_view() =~= column@);
        }
        matrix.push(column);
        proof {
            assert(intensities(*img).take(x + 1) =~= intensities(*img).take(x as int).push(
                intensities(*img)[x as int],
            ));
        }
        x += 1;
    }
    matrix
}

/// Whether an image has no pixels.
pub open spec fn is_empty_image(img: DynamicImage) -> bool {
    intensities(img).len() == 0 || intensities(img)[0].len() == 0
}

/// Whether an image can be resampled to `size` by `size` pixels on this
/// machine.
pub open spec fn fits(img: DynamicImage, size: u32) -> bool {
    &&& 4 * intensities(img).len() * size <= usize::MAX
    &&& 4 * size * size <= usize::MAX
}

/// Brings an image to the form that fingerprints are taken from: `size` by
/// `size` pixels, width and height scaled each on its own with the Lanczos
/// filter, in grey. An image without pixels, or one too wide to be resampled
/// on this machine, is refused.
pub fn normalize(img: &DynamicImage, size: u32) -> (normal: Result<DynamicImage, HashError>)
    ensures
        is_empty_image(*img) ==> normal == Err::<DynamicImage, HashError>(HashError::Empty),
        !is_empty_image(*img) && !fits(*img, size) ==> normal == Err::<DynamicImage, HashError>(
            HashError::TooLarge,
        ),
        !is_empty_image(*img) && fits(*img, size) ==> normal is Ok && is_grid(
            intensities(normal->Ok_0),
            size as int,
            size as int,
        ) && is_normal_form(*img, size, intensities(normal->Ok_0)),
{
    let (width, height) = dimensions(img);
    if width == 0 || height == 0 {
        return Err(HashError::Empty);
    }
    let limit: u128 = usize::MAX as u128;
    let side: u128 = size as u128;
    let wide: u128 = width as u128;
    assert(4 * wide * side <= 4 * 0x1_0000_0000 * 0x1_0000_0000) by (nonlinear_arith)
        requires
            wide < 0x1_0000_0000,
            side < 0x1_0000_0000,
    ;
    assert(4 * side * side <= 4 * 0x1_0000_0000 * 0x1_0000_0000) by (nonlinear_arith)
        requires
            side < 0x1_0000_0000,
    ;
    if 4 * wide * side > limit || 4 * side * side > limit {
        return Err(HashError::TooLarge);
    }
    let resized = resize_exact(img, size, size, Filter::Lanczos3);
    let grey = grayscale(&resized);
    proof {
        assert(resampled(*img, size, size, Filter::Lanczos3, resized) && greyed(resized, grey));
    }
    Ok(grey)
}

/// What follows decoding: a failure to decode is passed on with its reason,
/// and an image that was decoded is brought to its normal form of `size` by
/// `size` pixels, of which the intensities are read.
pub fn intensities_of(decoded: Result<DynamicImage, ImageError>, size: u32) -> (grid: Result<
    Vec<Vec<u8>>,
    HashError,
>)
    ensures
        decoded is Err ==> grid is Err && grid->Err_0 is Decode,
        decoded matches Ok(img) ==> {
            if is_empty_image(img) {
                grid == Err::<Vec<Vec<u8>>, HashError>(HashError::Empty)
            } else if !fits(img, size) {
                grid == Err::<Vec<Vec<u8>>, HashError>(HashError::TooLarge)
            } else {
                grid is Ok && is_grid(grid->Ok_0.deep_view(), size as int, size as int)
                    && is_normal_form(img, size, grid->Ok_0.deep_view())
            }
        },
{
    match decoded {
        Err(error) => Err(HashError::Decode(reason(&error))),
        Ok(img) => match normalize(&img, size) {
            Err(e) => Err(e),
            Ok(normal) => Ok(find_image_matrix(&normal)),
        },
    }
}

} // verus!
