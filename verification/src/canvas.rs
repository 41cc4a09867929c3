use crate::color::Color;
use vstd::prelude::*;

verus! {

/// An image in memory: an `image::ImageBuffer` of eight-bit RGB pixels over a
/// vector of bytes.
#[verifier::external_body]
pub struct Canvas {
    buffer: image::ImageBuffer<image::Rgb<u8>, Vec<u8>>,
}

/// The pixels of a canvas, row after row from the top, each row from the left.
pub uninterp spec fn canvas_pixels(canvas: Canvas) -> Seq<Color>;

/// The number of pixels in one row of a canvas.
pub uninterp spec fn canvas_width(canvas: Canvas) -> nat;

/// `ImageBuffer::new`: a buffer of the width and height given in which every
/// channel of every pixel is zero. It needs three bytes for each pixel and
/// fails where their number is more than a vector can hold.
#[verifier::external_body]
fn blank(width: u32, height: u32) -> (canvas: Canvas)
    requires
        3 * width * height <= isize::MAX,
    ensures
        canvas_width(canvas) == width,
        canvas_pixels(canvas) == Seq::new(
            (width * height) as nat,
            |k: int| (Color { r: 0, g: 0, b: 0 }),
        ),
{
    Canvas { buffer: image::ImageBuffer::new(width, height) }
}

/// `ImageBuffer::put_pixel`: replaces the pixel in column `x` of row `y`,
/// which must lie inside the image, and no other.
#[verifier::external_body]
fn put_pixel(canvas: &mut Canvas, x: u32, y: u32, color: Color)
    requires
        x < canvas_width(*old(canvas)),
        y * canvas_width(*old(canvas)) + x < canvas_pixels(*old(canvas)).len(),
    ensures
        canvas_width(*final(canvas)) == canvas_width(*old(canvas)),
        canvas_pixels(*final(canvas)) == canvas_pixels(*old(canvas)).update(
            y * canvas_width(*old(canvas)) + x,
            color,
        ),
{
    canvas.buffer.put_pixel(x, y, image::Rgb([color.r, color.g, color.b]))
}

/// `ImageBuffer::into_raw`: the bytes under the image, three for each pixel in
/// the order of the pixels: red, green, blue.
#[verifier::external_body]
fn into_raw(canvas: Canvas) -> (bytes: Vec<u8>)
    ensures
        bytes@ == channels(canvas_pixels(canvas)),
{
    canvas.buffer.into_raw()
}

/// The channels of some pixels in a row: red, green and blue of the first,
/// then of the second, and so on.
pub open spec fn channels(pixels: Seq<Color>) -> Seq<u8> {
    Seq::new(
        3 * pixels.len(),
        |k: int|
            if k % 3 == 0 {
                pixels[k / 3].r
            } else if k % 3 == 1 {
                pixels[k / 3].g
            } else {
                pixels[k / 3].b
            },
    )
}

/// Whether `scan_lines` holds `height` rows of `width` pixels each.
pub open spec fn well_shaped(scan_lines: Seq<Vec<Color>>, width: nat, height: nat) -> bool {
    &&& scan_lines.len() == height
    &&& forall|y: int| 0 <= y < height ==> (#[trigger] scan_lines[y]).len() == width
}

/// Whether an image of the size given fits in memory at three bytes a pixel.
pub open spec fn fits(width: nat, height: nat) -> bool {
    3 * width * height <= isize::MAX
}

impl Canvas {
    /// Lays scan lines out as an image, the first line at the top and the
    /// first pixel of each line at the left.
    ///
    /// There is no image where the lines do not make a rectangle of the width
    /// and height given, or where the image would not fit in memory.
    pub fn from_scan_lines(width: u32, height: u32, scan_lines: &Vec<Vec<Color>>) -> (r: Option<
        Canvas,
    >)
        ensures
            r is Some <==> well_shaped(scan_lines@, width as nat, height as nat) && fits(
                width as nat,
                height as nat,
            ),
            r matches Some(canvas) ==> {
                &&& canvas_width(canvas) == width
                &&& canvas_pixels(canvas).len() == width * height
                &&& forall|x: int, y: int|
                    0 <= x < width && 0 <= y < height ==> canvas_pixels(canvas)[y * width + x]
                        == #[trigger] scan_lines@[y]@[x]
            },
    {
        if !Self::is_well_shaped(width, height, scan_lines) {
            return None;
        }
        proof {
            lemma_area(width as nat, height as nat);
        }
        let area: u64 = (width as u64) * (height as u64);
        if area > (isize::MAX as u64) / 3 {
            return None;
        }
        let mut canvas = blank(width, height);
        let mut y: u32 = 0;
        while y < height
            invariant
                y <= height,
                well_shaped(scan_lines@, width as nat, height as nat),
                canvas_width(canvas) == width,
                canvas_pixels(canvas).len() == width * height,
                forall|i: int, j: int|
                    0 <= i < width && 0 <= j < y ==> canvas_pixels(canvas)[j * width + i]
                        == #[trigger] scan_lines@[j]@[i],
            decreases height - y,
        {
            let mut x: u32 = 0;
            while x < width
                invariant
                    x <= width,
                    y < height,
                    well_shaped(scan_lines@, width as nat, height as nat),
                    canvas_width(canvas) == width,
                    canvas_pixels(canvas).len() == width * height,
                    forall|i: int, j: int|
                        0 <= i < width && 0 <= j < y ==> canvas_pixels(canvas)[j * width + i]
                            == #[trigger] scan_lines@[j]@[i],
                    forall|i: int|
                        0 <= i < x ==> canvas_pixels(canvas)[y * width + i]
                            == #[trigger] scan_lines@[y as int]@[i],
                decreases width - x,
            {
                proof {
                    lemma_cell(x as int, y as int, width as int, height as int);
                }
                let ghost before = canvas_pixels(canvas);
                put_pixel(&mut canvas, x, y, scan_lines[y as usize][x as usize]);
                proof {
                    assert forall|i: int, j: int| 0 <= i < width && 0 <= j < y implies
                        canvas_pixels(canvas)[j * width + i] == #[trigger] scan_lines@[j]@[i] by {
                        lemma_cell(i, j, width as int, height as int);
                        lemma_cells_differ(i, j, x as int, y as int, width as int);
                        assert(before[j * width + i] == scan_lines@[j]@[i]);
                    }
                    assert forall|i: int| 0 <= i < x + 1 implies canvas_pixels(canvas)[y * width
                        + i] == #[trigger] scan_lines@[y as int]@[i] by {
                        if i < x {
                            lemma_cell(i, y as int, width as int, height as int);
                            assert(before[y * width + i] == scan_lines@[y as int]@[i]);
                        }
                    }
                }
                x = x + 1;
            }
            y = y + 1;
        }
        Some(canvas)
    }

    /// Whether `scan_lines` holds `height` rows of `width` pixels each.
    fn is_well_shaped(width: u32, height: u32, scan_lines: &Vec<Vec<Color>>) -> (r: bool)
        ensures
            r == well_shaped(scan_lines@, width as nat, height as nat),
    {
        if scan_lines.len() != height as usize {
            return false;
        }
        let mut y: usize = 0;
        while y < scan_lines.len()
            invariant
                y <= scan_lines.len(),
                scan_lines.len() == height,
                forall|j: int| 0 <= j < y ==> (#[trigger] scan_lines@[j]).len() == width,
            decreases scan_lines.len() - y,
        {
            if scan_lines[y].len() != width as usize {
                return false;
            }
            y = y + 1;
        }
        true
    }

    /// The image as bytes, three for each pixel: red, green, blue; row after
    /// row from the top, each row from the left.
    pub fn into_bytes(self) -> (bytes: Vec<u8>)
        ensures
            bytes@ == channels(canvas_pixels(self)),
    {
        into_raw(self)
    }
}

/// The number of pixels of an image fits in sixty-four bits, and three times
/// that number is the number of its bytes.
proof fn lemma_area(width: nat, height: nat)
    requires
        width <= u32::MAX,
        height <= u32::MAX,
    ensures
        width * height <= 0xFFFF_FFFE_0000_0001,
        3 * width * height == 3 * (width * height),
{
    assert(width * height <= 0xFFFF_FFFF * 0xFFFF_FFFF) by (nonlinear_arith)
        requires
            width <= 0xFFFF_FFFF,
            height <= 0xFFFF_FFFF,
    ;
    assert(3 * width * height == 3 * (width * height)) by (nonlinear_arith);
}

/// The place of a pixel in the row-major order lies inside the image.
proof fn lemma_cell(x: int, y: int, width: int, height: int)
    requires
        0 <= x < width,
        0 <= y < height,
    ensures
        0 <= y * width + x < width * height,
{
    assert(y * width + x < width * height) by (nonlinear_arith)
        requires
            0 <= x < width,
            0 <= y < height,
    {
        assert((y + 1) * width <= height * width);
    }
    assert(0 <= y * width) by (nonlinear_arith)
        requires
            0 <= y,
            0 < width,
    ;
}

/// Pixels in different rows lie at different places.
proof fn lemma_cells_differ(i: int, j: int, x: int, y: int, width: int)
    requires
        0 <= i < width,
        0 <= x < width,
        0 <= j < y,
    ensures
        j * width + i != y * width + x,
{
    assert(j * width + i < y * width + x) by (nonlinear_arith)
        requires
            0 <= i < width,
            0 <= x,
            j + 1 <= y,
    {
        assert((j + 1) * width <= y * width);
    }
}

} // verus!
