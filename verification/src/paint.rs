//! Painting a cat: the sprite sheet, and how a cell of it is coloured.

use crate::protocol::CatStyle;
use crate::sprite::Sprite;
use vstd::prelude::*;

verus! {

/// A cell of the sprite sheet is this many pixels wide and high.
pub const W: usize = 32;

/// The bytes of a painted cell: four for each pixel.
pub const FRAME_BYTES: usize = 4096;

/// Why a picture could not be read.
#[verifier::external_type_specification]
#[verifier::external_body]
pub struct ExImageError(image::ImageError);

/// The width and the pixels of a PNG picture, row by row, in red, green, blue and
/// opacity of one byte each, as the crate `image` decodes it; nothing for bytes
/// that it does not decode.
pub uninterp spec fn png_pixels(bytes: Seq<u8>) -> Option<(u32, Seq<u8>)>;

/// `load_from_memory_with_format` of the crate `image` for the format PNG, with the
/// picture handed back by its `into_rgba8`, `width` and `into_raw`. What is claimed
/// is that the result depends on the bytes alone.
#[verifier::external_body]
fn decode_png(bytes: &[u8]) -> (r: Result<(u32, Vec<u8>), image::ImageError>)
    ensures
        match r {
            Ok((width, pixels)) => png_pixels(bytes@) == Some((width, pixels@)),
            Err(_) => png_pixels(bytes@) is None,
        },
{
    let picture = image::load_from_memory_with_format(bytes, image::ImageFormat::Png)?.into_rgba8();
    Ok((picture.width(), picture.into_raw()))
}

/// What can go wrong with the sprite sheet.
#[derive(Debug)]
pub enum AssetError {
    /// It is no PNG picture.
    Decode(image::ImageError),
}

/// The sprite sheet: its pixels, row by row, four bytes for each, and how many
/// pixels a row has.
#[derive(Debug)]
pub struct Asset {
    pub sheet: Vec<u8>,
    pub stride: usize,
}

/// Where the bytes of a pixel of a cell begin in a sheet.
pub open spec fn pixel_at(stride: nat, sprite: Sprite, x: nat, y: nat) -> nat {
    ((sprite.1 * 32 + y) * stride + sprite.0 * 32 + x) as nat * 4
}

/// The colour channels of `0xRRGGBB`.
pub open spec fn channels(rgb: u32) -> Seq<u8> {
    seq![(rgb / 65536 % 256) as u8, (rgb / 256 % 256) as u8, (rgb % 256) as u8]
}

/// A value between `a` and `b`: `a` at 0, `b` at 255.
pub open spec fn blended(a: u8, b: u8, t: u8) -> u8 {
    ((a * (255 - t) + b * t) / 255) as u8
}

/// A value scaled down: all of it at 255, nothing at 0.
pub open spec fn scaled(value: u8, by: u8) -> u8 {
    (value * by / 255) as u8
}

/// How opaque a pixel of a cell is painted.
pub open spec fn painted_alpha(sheet: Seq<u8>, at: nat, style: CatStyle) -> u8 {
    scaled(sheet[at as int + 3], style.opacity)
}

/// A colour channel of a pixel: between the outline and the body by how bright the
/// sheet is there, scaled by how opaque the pixel is.
pub open spec fn painted_channel(sheet: Seq<u8>, at: nat, style: CatStyle, channel: int) -> u8 {
    scaled(
        blended(
            channels(style.outline)[channel],
            channels(style.body)[channel],
            sheet[at as int],
        ),
        painted_alpha(sheet, at, style),
    )
}

/// The bytes of a pixel as the screen takes them: blue, green, red and opacity.
pub open spec fn painted_pixel(sheet: Seq<u8>, at: nat, style: CatStyle) -> Seq<u8> {
    seq![
        painted_channel(sheet, at, style, 2),
        painted_channel(sheet, at, style, 1),
        painted_channel(sheet, at, style, 0),
        painted_alpha(sheet, at, style),
    ]
}

impl Asset {
    /// Whether a cell lies on the sheet, down to its last pixel.
    pub open spec fn holds(self, sprite: Sprite) -> bool {
        &&& sprite.1 * 32 + 31 <= usize::MAX
        &&& pixel_at(self.stride as nat, sprite, 31, 31) + 3 < self.sheet@.len()
    }

    /// The bytes of a painted cell, row by row.
    pub open spec fn painted(self, sprite: Sprite, style: CatStyle) -> Seq<u8> {
        Seq::new(
            FRAME_BYTES as nat,
            |i: int|
                painted_pixel(
                    self.sheet@,
                    pixel_at(
                        self.stride as nat,
                        sprite,
                        (i / 4 % 32) as nat,
                        (i / 128) as nat,
                    ),
                    style,
                )[i % 4],
        )
    }

    /// Reads a sprite sheet from the bytes of a PNG picture.
    pub fn load(png: &[u8]) -> (r: Result<Asset, AssetError>)
        ensures
            match png_pixels(png@) {
                Some((width, pixels)) => r is Ok && r->Ok_0.stride == width && r->Ok_0.sheet@
                    == pixels,
                None => r is Err,
            },
    {
        match decode_png(png) {
            Ok((width, sheet)) => Ok(Asset { stride: width as usize, sheet }),
            Err(error) => Err(AssetError::Decode(error)),
        }
    }

    /// Whether a cell lies on the sheet, down to its last pixel.
    pub fn has_cell(&self, sprite: Sprite) -> (r: bool)
        ensures
            r == self.holds(sprite),
    {
        let len: usize = self.sheet.len();
        match self.last_byte(sprite) {
            Some(last) => last < len,
            None => false,
        }
    }

    /// Where the last byte of a cell would lie, if there can be such a place.
    fn last_byte(&self, sprite: Sprite) -> (r: Option<usize>)
        ensures
            r is Some == (sprite.1 * 32 + 31 <= usize::MAX && pixel_at(
                self.stride as nat,
                sprite,
                31,
                31,
            ) + 3 <= usize::MAX),
            r is Some ==> r->0 == pixel_at(self.stride as nat, sprite, 31, 31) + 3,
    {
        let rows = match sprite.1.checked_mul(32) {
            Some(rows) => match rows.checked_add(31) {
                Some(rows) => rows,
                None => {
                    return None;
                },
            },
            None => {
                return None;
            },
        };
        let ghost above = rows as int * self.stride as int;
        assert(above >= 0) by (nonlinear_arith)
            requires
                above == rows as int * self.stride as int,
                rows >= 0,
                self.stride >= 0,
        ;
        assert(pixel_at(self.stride as nat, sprite, 31, 31) == (above + sprite.0 * 32 + 31) * 4);
        let above = match rows.checked_mul(self.stride) {
            Some(above) => above,
            None => {
                return None;
            },
        };
        let columns = match sprite.0.checked_mul(32) {
            Some(columns) => match columns.checked_add(31) {
                Some(columns) => columns,
                None => {
                    return None;
                },
            },
            None => {
                return None;
            },
        };
        let pixel = match above.checked_add(columns) {
            Some(pixel) => pixel,
            None => {
                return None;
            },
        };
        match pixel.checked_mul(4) {
            Some(byte) => byte.checked_add(3),
            None => None,
        }
    }
}

/// The pixels of a cell come no later than its last one.
proof fn lemma_pixel_bound(stride: nat, sprite: Sprite, x: nat, y: nat)
    requires
        x < 32,
        y < 32,
    ensures
        pixel_at(stride, sprite, x, y) <= pixel_at(stride, sprite, 31, 31),
        (sprite.1 * 32 + y) * stride >= 0,
        (sprite.1 * 32 + y) * stride <= pixel_at(stride, sprite, x, y),
{
    let rows = sprite.1 * 32;
    assert((rows + y) * stride <= (rows + 31) * stride) by (nonlinear_arith)
        requires
            y <= 31,
            stride >= 0,
    ;
    assert((rows + y) * stride >= 0) by (nonlinear_arith)
        requires
            rows >= 0,
            y >= 0,
            stride >= 0,
    ;
}

/// Splits `0xRRGGBB` into its colour channels.
pub fn unpack(rgb: u32) -> (r: [u8; 3])
    ensures
        r@ == channels(rgb),
{
    assert((rgb >> 16) & 255 == rgb / 65536 % 256) by (bit_vector);
    assert((rgb >> 8) & 255 == rgb / 256 % 256) by (bit_vector);
    assert(rgb & 255 == rgb % 256) by (bit_vector);
    let r = [((rgb >> 16) & 255) as u8, ((rgb >> 8) & 255) as u8, (rgb & 255) as u8];
    assert(r@ =~= channels(rgb));
    r
}

/// A value between `a` and `b`.
fn blend(a: u8, b: u8, t: u8) -> (r: u8)
    ensures
        r == blended(a, b, t),
{
    proof {
        lemma_blend_bound(a, b, t);
    }
    let t: u16 = t as u16;
    ((a as u16 * (255 - t) + b as u16 * t) / 255) as u8
}

proof fn lemma_blend_bound(a: u8, b: u8, t: u8)
    ensures
        0 <= a * (255 - t),
        0 <= b * t,
        a * (255 - t) + b * t <= 255 * 255,
{
    assert(0 <= a * (255 - t) && 0 <= b * t && a * (255 - t) + b * t <= 255 * 255)
        by (nonlinear_arith)
        requires
            0 <= a <= 255,
            0 <= b <= 255,
            0 <= t <= 255,
    ;
}

/// Blends two colours, channel by channel.
pub fn mix(a: [u8; 3], b: [u8; 3], t: u8) -> (r: [u8; 3])
    ensures
        r@ == Seq::new(3, |i: int| blended(a@[i], b@[i], t)),
{
    let r = [blend(a[0], b[0], t), blend(a[1], b[1], t), blend(a[2], b[2], t)];
    assert(r@ =~= Seq::new(3, |i: int| blended(a@[i], b@[i], t)));
    r
}

/// A value scaled down.
fn scale(value: u8, by: u8) -> (r: u8)
    ensures
        r == scaled(value, by),
{
    assert(0 <= value * by <= 255 * 255) by (nonlinear_arith)
        requires
            0 <= value <= 255,
            0 <= by <= 255,
    ;
    (value as u16 * by as u16 / 255) as u8
}

/// Paints a cell of the sheet in the colours of a cat.
pub fn blit(asset: &Asset, sprite: Sprite, style: &CatStyle, out: &mut [u8; 4096])
    requires
        asset.holds(sprite),
    ensures
        final(out)@ == asset.painted(sprite, *style),
{
    let body = unpack(style.body);
    let outline = unpack(style.outline);
    let ghost target = asset.painted(sprite, *style);
    let len: usize = asset.sheet.len();
    let mut p: usize = 0;
    while p < 1024
        invariant
            p <= 1024,
            len == asset.sheet@.len(),
            asset.holds(sprite),
            target == asset.painted(sprite, *style),
            body@ == channels(style.body),
            outline@ == channels(style.outline),
            forall|i: int| 0 <= i < p * 4 ==> out@[i] == #[trigger] target[i],
        decreases 1024 - p,
    {
        let x: usize = p % W;
        let y: usize = p / W;
        proof {
            lemma_pixel_bound(asset.stride as nat, sprite, x as nat, y as nat);
        }
        let si: usize = (((sprite.1 * W + y) * asset.stride) + sprite.0 * W + x) * 4;
        let di: usize = p * 4;
        let alpha: u8 = scale(asset.sheet[si + 3], style.opacity);
        let rgb = mix(outline, body, asset.sheet[si]);
        out[di] = scale(rgb[2], alpha);
        out[di + 1] = scale(rgb[1], alpha);
        out[di + 2] = scale(rgb[0], alpha);
        out[di + 3] = alpha;
        proof {
            let at = pixel_at(asset.stride as nat, sprite, x as nat, y as nat);
            let pixel = painted_pixel(asset.sheet@, at, *style);
            assert(si == at);
            assert forall|i: int| 0 <= i < (p + 1) * 4 implies out@[i] == #[trigger] target[i] by {
                if i >= p * 4 {
                    assert(i / 4 == p);
                    assert(i / 128 == y);
                    assert(i / 4 % 32 == x);
                    assert(target[i] == pixel[i % 4]);
                }
            }
        }
        p += 1;
    }
    assert(out@ =~= target);
}

/// A blend lies between its ends: at 0 it is the one, at 255 the other.
pub proof fn law_blends_meet_their_ends(a: u8, b: u8, t: u8)
    ensures
        blended(a, b, 0) == a,
        blended(a, b, 255) == b,
        a <= b ==> a <= blended(a, b, t) <= b,
        b <= a ==> b <= blended(a, b, t) <= a,
{
    lemma_blend_bound(a, b, t);
    assert(a * (255 - 255) + b * 255 == b * 255) by (nonlinear_arith);
    assert(a * (255 - 0) + b * 0 == a * 255) by (nonlinear_arith);
    assert(a <= b ==> a * 255 <= a * (255 - t) + b * t <= b * 255) by (nonlinear_arith)
        requires
            0 <= a,
            0 <= b,
            0 <= t <= 255,
    ;
    assert(b <= a ==> b * 255 <= a * (255 - t) + b * t <= a * 255) by (nonlinear_arith)
        requires
            0 <= a,
            0 <= b,
            0 <= t <= 255,
    ;
}

/// The channels of a colour, put together again, are the colour: what stands above
/// its 24 bits does not count.
pub proof fn law_channels_make_the_colour(rgb: u32)
    ensures
        channels(rgb)[0] * 65536 + channels(rgb)[1] * 256 + channels(rgb)[2] == rgb % 0x100_0000,
{
}

/// A painted pixel is one that the screen can blend: no colour channel exceeds its
/// opacity. It is no more opaque than the sheet, and gone where the cat has no
/// opacity at all.
pub proof fn law_painted_pixels_are_premultiplied(sheet: Seq<u8>, at: nat, style: CatStyle)
    ensures
        ({
            let pixel = painted_pixel(sheet, at, style);
            &&& pixel[0] <= pixel[3]
            &&& pixel[1] <= pixel[3]
            &&& pixel[2] <= pixel[3]
            &&& pixel[3] <= sheet[at as int + 3]
            &&& pixel[3] <= style.opacity
            &&& style.opacity == 255 ==> pixel[3] == sheet[at as int + 3]
            &&& style.opacity == 0 ==> pixel == seq![0u8, 0u8, 0u8, 0u8]
        }),
{
    let alpha = painted_alpha(sheet, at, style);
    lemma_scaled(sheet[at as int + 3], style.opacity);
    let c = |k: int|
        blended(channels(style.outline)[k], channels(style.body)[k], sheet[at as int]);
    lemma_scaled(c(0), alpha);
    lemma_scaled(c(1), alpha);
    lemma_scaled(c(2), alpha);
    if style.opacity == 0 {
        assert(painted_pixel(sheet, at, style) =~= seq![0u8, 0u8, 0u8, 0u8]);
    }
}

proof fn lemma_scaled(value: u8, by: u8)
    ensures
        scaled(value, by) <= value,
        scaled(value, by) <= by,
        scaled(value, 255) == value,
{
    assert(0 <= value * by <= value * 255 && value * by <= by * 255) by (nonlinear_arith)
        requires
            0 <= value <= 255,
            0 <= by <= 255,
    ;
}

} // verus!
