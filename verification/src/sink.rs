//! Handing a finished buffer on: bytes for each cell, an image of the
//! `image` crate, and the test for the key that ends a viewing.
use vstd::prelude::*;
use crate::buffer::{lemma_cell_index, lemma_cell_index_unique, precedes, FrameBuffer};

verus! {

/// An image of the `image` crate with three bytes for each pixel. Verus
/// sees nothing inside it: what it holds is named by `picture_size` and
/// `picture_pixels`.
#[verifier::external_body]
pub struct Picture {
    pub image: image::RgbImage,
}

/// The width and the height of the image, in pixels.
pub uninterp spec fn picture_size(p: Picture) -> (nat, nat);

/// The pixels of the image, row by row from the top, each as red, green and
/// blue.
pub uninterp spec fn picture_pixels(p: Picture) -> Seq<(u8, u8, u8)>;

/// `image::ImageBuffer::new`: an image of the given size in which every
/// channel of every pixel is zero. The call counts the bytes of the image
/// as three times the width, then times the height, and panics where either
/// product is more than a `usize` holds, or the whole more than a vector
/// holds. Such sizes are left out, a width too large for the first product
/// also where the height is zero.
#[verifier::external_body]
fn blank_picture(width: u32, height: u32) -> (p: Picture)
    requires
        3 * width <= usize::MAX,
        3 * width * height <= isize::MAX,
    ensures
        picture_size(p) == (width as nat, height as nat),
        picture_pixels(p).len() == width * height,
        forall|i: int| 0 <= i < width * height ==> #[trigger] picture_pixels(p)[i] == (0u8, 0u8, 0u8),
{
    Picture { image: image::ImageBuffer::new(width, height) }
}

/// `image::ImageBuffer::put_pixel`: replaces the pixel in column `x` of row
/// `y` and leaves the size and every other pixel as they were. The call
/// panics outside the image, so such places are left out.
#[verifier::external_body]
fn put_pixel(p: &mut Picture, x: u32, y: u32, rgb: (u8, u8, u8))
    requires
        x < picture_size(*old(p)).0,
        y < picture_size(*old(p)).1,
    ensures
        picture_size(*final(p)) == picture_size(*old(p)),
        picture_pixels(*final(p)) == picture_pixels(*old(p)).update(
            y * picture_size(*old(p)).0 + x,
            rgb,
        ),
{
    p.image.put_pixel(x, y, image::Rgb([rgb.0, rgb.1, rgb.2]))
}

/// Whether the pixel in column `col` of row `row` of `p` shows the cell at
/// the same place of `fb`.
pub open spec fn shows_cell(p: Picture, fb: FrameBuffer, row: int, col: int) -> bool {
    picture_pixels(p)[row * fb.width() + col] == fb.at(row, col).to_rgb8()
}

/// Whether `p` is the image of `fb`: same size, and each pixel the bytes of
/// the cell at its place.
pub open spec fn depicts(p: Picture, fb: FrameBuffer) -> bool {
    &&& picture_size(p) == (fb.width() as nat, fb.height() as nat)
    &&& picture_pixels(p).len() == fb.width() * fb.height()
    &&& forall|row: int, col: int|
        0 <= row < fb.height() && 0 <= col < fb.width() ==> #[trigger] shows_cell(p, fb, row, col)
}

/// Whether a buffer of this size has an image: an image counts its rows and
/// columns in 32 bits, and the bytes of one row must not be more than a
/// `usize` holds, even where there is no row.
pub open spec fn has_image(width: usize, height: usize) -> bool {
    &&& width <= u32::MAX
    &&& height <= u32::MAX
    &&& 3 * width <= usize::MAX
}

/// The buffer as an image, each channel turned into a byte, or `None` where
/// a buffer of this size has no image.
pub fn render(fb: &FrameBuffer) -> (picture: Option<Picture>)
    ensures
        picture is Some <==> has_image(fb.width(), fb.height()),
        match picture {
            Some(p) => depicts(p, *fb),
            None => true,
        },
{
    proof {
        use_type_invariant(fb);
    }
    let width: usize = fb.width();
    let height: usize = fb.height();
    if width > 0xffff_ffff || height > 0xffff_ffff || width > usize::MAX / 3 {
        return None;
    }
    assert(3 * width * height <= isize::MAX) by (nonlinear_arith)
        requires
            width * height * 12 <= isize::MAX,
            0 <= width,
            0 <= height,
    ;
    let mut p: Picture = blank_picture(width as u32, height as u32);
    let mut row: usize = 0;
    while row < height
        invariant
            width == fb.width(),
            height == fb.height(),
            width <= u32::MAX,
            height <= u32::MAX,
            row <= height,
            picture_size(p) == (width as nat, height as nat),
            picture_pixels(p).len() == width * height,
            forall|r: int, c: int|
                0 <= r < height && 0 <= c < width && precedes(r, c, row as int, 0) ==> #[trigger] shows_cell(
                    p,
                    *fb,
                    r,
                    c,
                ),
        decreases height - row,
    {
        let mut col: usize = 0;
        while col < width
            invariant
                width == fb.width(),
                height == fb.height(),
                width <= u32::MAX,
                height <= u32::MAX,
                row < height,
                col <= width,
                picture_size(p) == (width as nat, height as nat),
                picture_pixels(p).len() == width * height,
                forall|r: int, c: int|
                    0 <= r < height && 0 <= c < width && precedes(r, c, row as int, col as int)
                        ==> #[trigger] shows_cell(p, *fb, r, c),
            decreases width - col,
        {
            let ghost before: Picture = p;
            put_pixel(&mut p, col as u32, row as u32, fb.get(row, col).to_rgb8());
            proof {
                lemma_cell_index(width as int, height as int, row as int, col as int);
                assert forall|r: int, c: int|
                    0 <= r < height && 0 <= c < width && precedes(r, c, row as int, col + 1)
                    implies #[trigger] shows_cell(p, *fb, r, c) by {
                    lemma_cell_index(width as int, height as int, r, c);
                    if r * width + c == row * width + col {
                        lemma_cell_index_unique(width as int, r, c, row as int, col as int);
                    } else {
                        assert(shows_cell(before, *fb, r, c));
                    }
                }
            }
            col = col + 1;
        }
        row = row + 1;
    }
    Some(p)
}

/// A key that a viewer reports.
#[derive(Clone, Copy, Debug, PartialEq, Eq, Structural)]
pub enum Key {
    Escape,
    Other,
}

/// Whether a key event asks to end the viewing: the escape key going down.
pub fn asks_to_exit(key: Key, pressed: bool) -> (exit: bool)
    ensures
        exit == (key == Key::Escape && pressed),
{
    match key {
        Key::Escape => pressed,
        Key::Other => false,
    }
}

} // verus!
