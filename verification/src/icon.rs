//! The application's icon in the forms that trays and windows want.
use vstd::prelude::*;

verus! {

/// A decoded image.
#[verifier::external_type_specification]
#[verifier::external_body]
pub struct ExDynamicImage(image::DynamicImage);

/// What a decoded image holds: its width, its height and its pixels, row by row, as red, green, blue and
/// alpha in eight bits each.
pub uninterp spec fn rgba8(image: image::DynamicImage) -> (u32, u32, Seq<u8>);

/// What `image::load_from_memory_with_format` makes of a file that is taken as PNG; nothing where it is
/// none.
pub uninterp spec fn png_image(file: Seq<u8>) -> Option<(u32, u32, Seq<u8>)>;

/// `image::load_from_memory_with_format` with the format PNG. Its decoder is built in, and the result
/// depends on the bytes of the file alone.
#[verifier::external_body]
fn load_png(file: &[u8]) -> (image: Option<image::DynamicImage>)
    ensures
        image matches Some(i) ==> png_image(file@) == Some(rgba8(i)),
        image is None ==> png_image(file@) is None,
{
    image::load_from_memory_with_format(file, image::ImageFormat::Png).ok()
}

/// `image::DynamicImage::to_rgba8`: the pixels of an image, converted to eight bits of red, green, blue
/// and alpha.
#[verifier::external_body]
fn to_rgba8(image: &image::DynamicImage) -> (pixels: (u32, u32, Vec<u8>))
    ensures
        rgba8(*image) == (pixels.0, pixels.1, pixels.2@),
{
    let rgba = image.to_rgba8();
    let (width, height) = rgba.dimensions();
    (width, height, rgba.into_raw())
}

/// An icon: its size and its pixels.
pub struct Icon {
    pub width: u32,
    pub height: u32,
    pub data: Vec<u8>,
}

/// Pixels of red, green, blue and alpha as pixels of alpha, red, green and blue; an incomplete last
/// pixel is left out.
pub open spec fn argb_of(rgba: Seq<u8>) -> Seq<u8> {
    Seq::new(
        4 * (rgba.len() / 4),
        |i: int|
            if i % 4 == 0 {
                rgba[i + 3]
            } else {
                rgba[i - 1]
            },
    )
}

/// Puts the alpha of each pixel first.
pub fn rgba_to_argb(rgba: &[u8]) -> (argb: Vec<u8>)
    ensures
        argb@ == argb_of(rgba@),
{
    let n: usize = rgba.len() / 4;
    let mut argb: Vec<u8> = Vec::new();
    let mut p: usize = 0;
    while p < n
        invariant
            p <= n == rgba@.len() / 4,
            argb@ == argb_of(rgba@).take(4 * p),
        decreases n - p,
    {
        assert(4 * p + 3 < rgba@.len() && rgba@.len() == rgba.len());
        let at: usize = 4 * p;
        argb.push(rgba[at + 3]);
        argb.push(rgba[at]);
        argb.push(rgba[at + 1]);
        argb.push(rgba[at + 2]);
        p += 1;
        assert(argb@ =~= argb_of(rgba@).take(4 * p));
    }
    assert(argb@ =~= argb_of(rgba@));
    argb
}

/// The icon for a tray that wants alpha, red, green and blue.
pub fn tray_icon(file: &[u8]) -> (icon: Option<Icon>)
    ensures
        match icon {
            Some(icon) => png_image(file@) matches Some(image) && icon.width == image.0
                && icon.height == image.1 && icon.data@ == argb_of(image.2),
            None => png_image(file@) is None,
        },
{
    match load_png(file) {
        Some(image) => {
            let (width, height, rgba) = to_rgba8(&image);
            Some(Icon { width, height, data: rgba_to_argb(&rgba) })
        },
        None => None,
    }
}

/// The icon for a window that wants red, green, blue and alpha.
pub fn window_icon(file: &[u8]) -> (icon: Option<Icon>)
    ensures
        match icon {
            Some(icon) => png_image(file@) == Some((icon.width, icon.height, icon.data@)),
            None => png_image(file@) is None,
        },
{
    match load_png(file) {
        Some(image) => {
            let (width, height, data) = to_rgba8(&image);
            Some(Icon { width, height, data })
        },
        None => None,
    }
}

/// The pixels for a tray that wants red, green, blue and alpha.
pub fn tray_rgba(file: &[u8]) -> (pixels: Option<Vec<u8>>)
    ensures
        match pixels {
            Some(pixels) => png_image(file@) matches Some(image) && pixels@ == image.2,
            None => png_image(file@) is None,
        },
{
    match load_png(file) {
        Some(image) => {
            let (_, _, rgba) = to_rgba8(&image);
            Some(rgba)
        },
        None => None,
    }
}

/// Where the parts of a pixel go: the opacity moves from the last place to the first, and red, green and blue
/// each move up by one.
pub proof fn lemma_opacity_moves_to_the_front(rgba: Seq<u8>, p: int)
    requires
        rgba.len() % 4 == 0,
        0 <= p < rgba.len() / 4,
    ensures
        argb_of(rgba).len() == rgba.len(),
        argb_of(rgba)[4 * p] == rgba[4 * p + 3],
        argb_of(rgba)[4 * p + 1] == rgba[4 * p],
        argb_of(rgba)[4 * p + 2] == rgba[4 * p + 1],
        argb_of(rgba)[4 * p + 3] == rgba[4 * p + 2],
{
}

} // verus!
