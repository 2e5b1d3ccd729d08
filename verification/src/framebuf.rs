use vstd::prelude::*;
use image::{ImageBuffer, Rgba};

verus! {

/// An RGBA colour, one byte per channel.
pub type Color = [u8; 4];

/// The frame the game draws into: an RGBA image of the `image` crate, one
/// byte per channel. Its pixels and size are known to contracts through
/// `frame_pixels` and `frame_size`.
#[verifier::external_body]
pub struct FrameBuf {
    pub image: ImageBuffer<Rgba<u8>, Vec<u8>>,
}

/// The colour of each pixel of a frame, by `(x, y)`.
pub uninterp spec fn frame_pixels(fb: FrameBuf) -> Map<(u32, u32), [u8; 4]>;

/// The `(width, height)` of a frame, as it was made.
pub uninterp spec fn frame_size(fb: FrameBuf) -> (u32, u32);

/// `ImageBuffer::dimensions`: the width and height the frame was made with.
#[verifier::external_body]
fn frame_dimensions(fb: &FrameBuf) -> (res: (u32, u32))
    ensures
        res == frame_size(*fb),
{
    fb.image.dimensions()
}

/// `ImageBuffer::put_pixel`: sets the pixel at `(x, y)` to `color` and leaves
/// the size and every other pixel as they were. It panics out of bounds,
/// hence the `requires`.
#[verifier::external_body]
fn put_pixel(fb: &mut FrameBuf, x: u32, y: u32, color: Color)
    requires
        x < frame_size(*old(fb)).0,
        y < frame_size(*old(fb)).1,
    ensures
        frame_size(*final(fb)) == frame_size(*old(fb)),
        frame_pixels(*final(fb)) == frame_pixels(*old(fb)).insert((x, y), color),
{
    fb.image.put_pixel(x, y, Rgba(color));
}

/// Whether pixel `p` lies in the `scale` by `scale` square whose top left
/// corner is `(x, y)`.
pub open spec fn in_square(p: (u32, u32), x: u32, y: u32, scale: u32) -> bool {
    &&& x <= p.0 < x + scale
    &&& y <= p.1 < y + scale
}

/// Whether that square lies inside a frame of size `size`.
pub open spec fn square_fits(size: (u32, u32), x: u32, y: u32, scale: u32) -> bool {
    scale == 0 || (x + scale <= size.0 && y + scale <= size.1)
}

/// `pixels` with that square painted `color`.
pub open spec fn painted(
    pixels: Map<(u32, u32), [u8; 4]>,
    x: u32,
    y: u32,
    scale: u32,
    color: Color,
) -> Map<(u32, u32), [u8; 4]> {
    pixels.union_prefer_right(Map::new(|p: (u32, u32)| in_square(p, x, y, scale), |p: (u32, u32)| color))
}

/// Painting a square changes exactly the pixels of the square, and painting
/// it again changes nothing more.
pub proof fn lemma_painted(
    pixels: Map<(u32, u32), [u8; 4]>,
    x: u32,
    y: u32,
    scale: u32,
    color: Color,
    p: (u32, u32),
)
    ensures
        in_square(p, x, y, scale) ==> painted(pixels, x, y, scale, color)[p] == color,
        !in_square(p, x, y, scale) ==> painted(pixels, x, y, scale, color).dom().contains(p)
            == pixels.dom().contains(p),
        !in_square(p, x, y, scale) && pixels.dom().contains(p) ==> painted(
            pixels,
            x,
            y,
            scale,
            color,
        )[p] == pixels[p],
        painted(painted(pixels, x, y, scale, color), x, y, scale, color) == painted(
            pixels,
            x,
            y,
            scale,
            color,
        ),
{
    assert(painted(painted(pixels, x, y, scale, color), x, y, scale, color) =~= painted(
        pixels,
        x,
        y,
        scale,
        color,
    ));
}

/// A square of side 1 is its corner pixel alone, one of side 0 holds no
/// pixel, and each square holds the square one smaller at the same corner.
pub proof fn lemma_square_shape(p: (u32, u32), x: u32, y: u32, scale: u32)
    ensures
        in_square(p, x, y, 1) <==> p == (x, y),
        !in_square(p, x, y, 0),
        scale > 0 && in_square(p, x, y, (scale - 1) as u32) ==> in_square(p, x, y, scale),
        in_square(p, x, y, scale) ==> in_square((x, y), x, y, scale),
{
}

/// A square fits in a frame exactly when every pixel of it lies in the frame:
/// its columns below the width and its rows below the height.
pub proof fn lemma_fits_iff_pixels_inside(size: (u32, u32), x: u32, y: u32, scale: u32)
    ensures
        square_fits(size, x, y, scale) <==> forall|p: (u32, u32)|
            #[trigger] in_square(p, x, y, scale) ==> p.0 < size.0 && p.1 < size.1,
{
    if !square_fits(size, x, y, scale) {
        let px: u32 = if x + scale - 1 <= u32::MAX {
            (x + scale - 1) as u32
        } else {
            u32::MAX
        };
        let py: u32 = if y + scale - 1 <= u32::MAX {
            (y + scale - 1) as u32
        } else {
            u32::MAX
        };
        assert(in_square((px, py), x, y, scale));
        assert(!(px < size.0 && py < size.1));
    }
}

/// Lighting sets the red, green and blue of the light whatever the colour
/// held, keeps the colour's alpha, and lighting twice is lighting with the
/// second light.
pub proof fn lemma_lighting(c1: Color, c2: Color, l1: Color, l2: Color)
    ensures
        lit(c1, l1)[0] == l1[0] && lit(c1, l1)[1] == l1[1] && lit(c1, l1)[2] == l1[2],
        lit(c1, l1)[3] == c1[3],
        lit(c1, l1)[0] == lit(c2, l1)[0] && lit(c1, l1)[1] == lit(c2, l1)[1] && lit(c1, l1)[2]
            == lit(c2, l1)[2],
        lit(lit(c1, l1), l2) == lit(c1, l2),
{
    assert(lit(lit(c1, l1), l2) =~= lit(c1, l2));
}

/// Paints the `scale` by `scale` square whose top left corner is `(x, y)`.
pub fn fill_square(fb: &mut FrameBuf, x: u32, y: u32, scale: u32, color: Color)
    requires
        square_fits(frame_size(*old(fb)), x, y, scale),
    ensures
        frame_size(*final(fb)) == frame_size(*old(fb)),
        frame_pixels(*final(fb)) == painted(frame_pixels(*old(fb)), x, y, scale, color),
{
    let ghost start = frame_pixels(*fb);
    let ghost size = frame_size(*fb);
    let mut xs: u32 = 0;
    assert(painted(start, x, y, 0, color) =~= start);
    while xs < scale
        invariant
            xs <= scale,
            square_fits(size, x, y, scale),
            frame_size(*fb) == size,
            frame_pixels(*fb) == start.union_prefer_right(
                Map::new(
                    |p: (u32, u32)| x <= p.0 < x + xs && y <= p.1 < y + scale,
                    |p: (u32, u32)| color,
                ),
            ),
        decreases scale - xs,
    {
        let mut ys: u32 = 0;
        while ys < scale
            invariant
                xs < scale,
                ys <= scale,
                square_fits(size, x, y, scale),
                frame_size(*fb) == size,
                frame_pixels(*fb) == start.union_prefer_right(
                    Map::new(
                        |p: (u32, u32)|
                            (x <= p.0 < x + xs && y <= p.1 < y + scale) || (p.0 == x + xs && y
                                <= p.1 < y + ys),
                        |p: (u32, u32)| color,
                    ),
                ),
            decreases scale - ys,
        {
            put_pixel(fb, x + xs, y + ys, color);
            ys = ys + 1;
            assert(frame_pixels(*fb) =~= start.union_prefer_right(
                Map::new(
                    |p: (u32, u32)|
                        (x <= p.0 < x + xs && y <= p.1 < y + scale) || (p.0 == x + xs && y <= p.1
                            < y + ys),
                    |p: (u32, u32)| color,
                ),
            ));
        }
        xs = xs + 1;
        assert(frame_pixels(*fb) =~= start.union_prefer_right(
            Map::new(
                |p: (u32, u32)| x <= p.0 < x + xs && y <= p.1 < y + scale,
                |p: (u32, u32)| color,
            ),
        ));
    }
    assert(frame_pixels(*fb) =~= painted(start, x, y, scale, color));
}

/// Paints that square when it lies inside the frame, and tells whether it
/// did; otherwise the frame is left as it was.
pub fn try_fill_square(fb: &mut FrameBuf, x: u32, y: u32, scale: u32, color: Color) -> (drawn: bool)
    ensures
        drawn == square_fits(frame_size(*old(fb)), x, y, scale),
        drawn == (scale == 0 || (x + scale <= frame_size(*old(fb)).0 && y + scale <= frame_size(
            *old(fb),
        ).1)),
        frame_size(*final(fb)) == frame_size(*old(fb)),
        drawn ==> frame_pixels(*final(fb)) == painted(frame_pixels(*old(fb)), x, y, scale, color),
        !drawn ==> frame_pixels(*final(fb)) == frame_pixels(*old(fb)),
{
    if scale == 0 {
        assert(painted(frame_pixels(*fb), x, y, 0, color) =~= frame_pixels(*fb));
        return true;
    }
    let (width, height) = frame_dimensions(fb);
    if x as u64 + scale as u64 <= width as u64 && y as u64 + scale as u64 <= height as u64 {
        fill_square(fb, x, y, scale, color);
        true
    } else {
        false
    }
}

/// A colour lit by `light`: the red, green and blue of the light, with the
/// colour's own alpha.
pub open spec fn lit(col: Color, light: Color) -> Color {
    [light[0], light[1], light[2], col[3]]
}

/// Lights a colour: takes the red, green and blue channels of `light` and
/// keeps the alpha channel.
pub fn apply_light(col: &mut Color, light: &Color)
    ensures
        *final(col) == lit(*old(col), *light),
        final(col)[0] == light[0],
        final(col)[1] == light[1],
        final(col)[2] == light[2],
        final(col)[3] == old(col)[3],
{
    col[0] = light[0];
    col[1] = light[1];
    col[2] = light[2];
    assert(*col =~= lit(*old(col), *light));
}

} // verus!
