//! Pixel buffers and the eight ways to turn and mirror them.

use std::sync::Arc;
use vstd::prelude::*;

verus! {

/// The pixels of an image, row by row from the top, a byte for each channel.
#[verifier::ext_equal]
pub struct Picture {
    pub width: nat,
    pub height: nat,
    pub channels: nat,
    pub bytes: Seq<u8>,
}

/// The position of a channel of the pixel in column `x` and row `y`.
pub open spec fn byte_at(width: int, channels: int, x: int, y: int, channel: int) -> int {
    (y * width + x) * channels + channel
}

impl Picture {
    pub open spec fn valid(self) -> bool {
        &&& self.channels > 0
        &&& self.bytes.len() == self.width * self.height * self.channels
    }

    /// Whether there is such a channel of such a pixel.
    pub open spec fn has(self, x: int, y: int, channel: int) -> bool {
        0 <= x < self.width && 0 <= y < self.height && 0 <= channel < self.channels
    }

    /// A channel of the pixel in column `x` and row `y`.
    pub open spec fn at(self, x: int, y: int, channel: int) -> u8 {
        self.bytes[byte_at(self.width as int, self.channels as int, x, y, channel)]
    }
}

/// A way to turn and mirror an image: the rows become the columns, or not; and each
/// direction of the image that it is applied to is reversed, or not.
#[derive(Clone, Copy, Debug, PartialEq, Eq, Structural)]
pub struct Symmetry {
    pub swap: bool,
    pub flip_x: bool,
    pub flip_y: bool,
}

impl Symmetry {
    /// The column that lands in column `x` and row `y`.
    pub open spec fn source_x(self, width: int, x: int, y: int) -> int {
        let along = if self.swap {
            y
        } else {
            x
        };
        if self.flip_x {
            width - 1 - along
        } else {
            along
        }
    }

    /// The row that lands in column `x` and row `y`.
    pub open spec fn source_y(self, height: int, x: int, y: int) -> int {
        let along = if self.swap {
            x
        } else {
            y
        };
        if self.flip_y {
            height - 1 - along
        } else {
            along
        }
    }

    /// First `self`, then `other`.
    pub open spec fn followed_by(self, other: Symmetry) -> Symmetry {
        Symmetry {
            swap: self.swap != other.swap,
            flip_x: self.flip_x != if self.swap {
                other.flip_y
            } else {
                other.flip_x
            },
            flip_y: self.flip_y != if self.swap {
                other.flip_x
            } else {
                other.flip_y
            },
        }
    }

    pub open spec fn identity() -> Symmetry {
        Symmetry { swap: false, flip_x: false, flip_y: false }
    }

    /// A quarter turn clockwise.
    pub open spec fn quarter() -> Symmetry {
        Symmetry { swap: true, flip_x: false, flip_y: true }
    }

    /// Half a turn.
    pub open spec fn half() -> Symmetry {
        Symmetry { swap: false, flip_x: true, flip_y: true }
    }

    /// Three quarter turns clockwise.
    pub open spec fn three_quarters() -> Symmetry {
        Symmetry { swap: true, flip_x: true, flip_y: false }
    }
}

impl Picture {
    pub open spec fn new_width(self, s: Symmetry) -> nat {
        if s.swap {
            self.height
        } else {
            self.width
        }
    }

    pub open spec fn new_height(self, s: Symmetry) -> nat {
        if s.swap {
            self.width
        } else {
            self.height
        }
    }

    /// The byte of this image that lands at position `k` of the transformed one.
    pub open spec fn moved_byte(self, s: Symmetry, k: int) -> u8 {
        let pixel = k / (self.channels as int);
        let x = pixel % (self.new_width(s) as int);
        let y = pixel / (self.new_width(s) as int);
        self.at(
            s.source_x(self.width as int, x, y),
            s.source_y(self.height as int, x, y),
            k % (self.channels as int),
        )
    }

    /// The image turned and mirrored.
    pub open spec fn transformed(self, s: Symmetry) -> Picture {
        Picture {
            width: self.new_width(s),
            height: self.new_height(s),
            channels: self.channels,
            bytes: Seq::new(self.bytes.len(), |k: int| self.moved_byte(s, k)),
        }
    }
}

/// The position of a channel is in range and tells the channel, the column and the row.
proof fn lemma_byte_at(
    width: int,
    height: int,
    channels: int,
    x: int,
    y: int,
    channel: int,
)
    requires
        0 <= x < width,
        0 <= y < height,
        0 <= channel < channels,
    ensures
        0 <= byte_at(width, channels, x, y, channel) < width * height * channels,
        byte_at(width, channels, x, y, channel) % channels == channel,
        byte_at(width, channels, x, y, channel) / channels == y * width + x,
        (y * width + x) % width == x,
        (y * width + x) / width == y,
        0 <= y * width + x < width * height,
{
    let pixel = y * width + x;
    let k = pixel * channels + channel;
    assert(0 <= y * width <= (height - 1) * width) by (nonlinear_arith)
        requires
            0 <= y <= height - 1,
            width >= 0,
    ;
    assert((height - 1) * width + width == width * height) by (nonlinear_arith);
    assert(0 <= pixel < width * height);
    assert(pixel * channels <= (width * height - 1) * channels) by (nonlinear_arith)
        requires
            pixel <= width * height - 1,
            channels >= 0,
    ;
    assert((width * height - 1) * channels + channels == width * height * channels)
        by (nonlinear_arith);
    assert(0 <= pixel * channels) by (nonlinear_arith)
        requires
            0 <= pixel,
            0 <= channels,
    ;
    vstd::arithmetic::div_mod::lemma_fundamental_div_mod_converse(k, channels, pixel, channel);
    vstd::arithmetic::div_mod::lemma_fundamental_div_mod_converse(pixel, width, y, x);
}

/// Every position in range is that of a channel of a pixel.
proof fn lemma_position(p: Picture, k: int) -> (r: (int, int, int))
    requires
        p.valid(),
        0 <= k < p.bytes.len(),
    ensures
        p.has(r.0, r.1, r.2),
        k == byte_at(p.width as int, p.channels as int, r.0, r.1, r.2),
{
    let c = p.channels as int;
    let w = p.width as int;
    let h = p.height as int;
    let pixel = k / c;
    let channel = k % c;
    vstd::arithmetic::div_mod::lemma_fundamental_div_mod(k, c);
    vstd::arithmetic::div_mod::lemma_mod_bound(k, c);
    assert(0 <= pixel < w * h) by (nonlinear_arith)
        requires
            k == c * pixel + channel,
            0 <= channel < c,
            0 <= k < w * h * c,
    ;
    assert(w > 0) by (nonlinear_arith)
        requires
            0 <= pixel < w * h,
            w >= 0,
    ;
    let x = pixel % w;
    let y = pixel / w;
    vstd::arithmetic::div_mod::lemma_fundamental_div_mod(pixel, w);
    vstd::arithmetic::div_mod::lemma_mod_bound(pixel, w);
    assert(0 <= y < h) by (nonlinear_arith)
        requires
            pixel == w * y + x,
            0 <= x < w,
            0 <= pixel < w * h,
    ;
    assert(w * y == y * w) by (nonlinear_arith);
    assert(c * pixel == pixel * c) by (nonlinear_arith);
    (x, y, channel)
}

proof fn lemma_transformed_valid(p: Picture, s: Symmetry)
    requires
        p.valid(),
    ensures
        p.transformed(s).valid(),
{
    assert(p.height * p.width == p.width * p.height) by (nonlinear_arith);
}

/// Each pixel of the transformed image is the pixel of the first image that the symmetry
/// names, channel by channel.
pub proof fn law_pixels_move(p: Picture, s: Symmetry, x: int, y: int, channel: int)
    requires
        p.valid(),
        p.transformed(s).has(x, y, channel),
    ensures
        p.transformed(s).valid(),
        p.has(
            s.source_x(p.width as int, x, y),
            s.source_y(p.height as int, x, y),
            channel,
        ),
        p.transformed(s).at(x, y, channel) == p.at(
            s.source_x(p.width as int, x, y),
            s.source_y(p.height as int, x, y),
            channel,
        ),
{
    lemma_transformed_valid(p, s);
    let q = p.transformed(s);
    lemma_byte_at(q.width as int, q.height as int, q.channels as int, x, y, channel);
}

/// Two transformations in a row are one: the symmetries compose.
pub proof fn law_symmetries_compose(p: Picture, first: Symmetry, second: Symmetry)
    requires
        p.valid(),
    ensures
        p.transformed(first).transformed(second) == p.transformed(first.followed_by(second)),
{
    let q = p.transformed(first);
    let r = q.transformed(second);
    let both = first.followed_by(second);
    let direct = p.transformed(both);
    lemma_transformed_valid(p, first);
    lemma_transformed_valid(q, second);
    lemma_transformed_valid(p, both);
    assert forall|k: int| 0 <= k < r.bytes.len() implies r.bytes[k] == direct.bytes[k] by {
        let (x, y, channel) = lemma_position(r, k);
        law_pixels_move(q, second, x, y, channel);
        let qx = second.source_x(q.width as int, x, y);
        let qy = second.source_y(q.height as int, x, y);
        law_pixels_move(p, first, qx, qy, channel);
        law_pixels_move(p, both, x, y, channel);
        assert(r.bytes[k] == r.at(x, y, channel));
        assert(direct.bytes[k] == direct.at(x, y, channel));
    }
    assert(r =~= direct);
}

/// The identity changes nothing.
pub proof fn law_identity_changes_nothing(p: Picture)
    requires
        p.valid(),
    ensures
        p.transformed(Symmetry::identity()) == p,
{
    let q = p.transformed(Symmetry::identity());
    lemma_transformed_valid(p, Symmetry::identity());
    assert forall|k: int| 0 <= k < p.bytes.len() implies q.bytes[k] == p.bytes[k] by {
        let (x, y, channel) = lemma_position(p, k);
        law_pixels_move(p, Symmetry::identity(), x, y, channel);
        assert(q.bytes[k] == q.at(x, y, channel));
    }
    assert(q =~= p);
}

/// A pixel buffer. The number of bytes always matches the dimensions.
#[derive(Debug, PartialEq, Eq)]
pub struct Raster {
    width: u32,
    height: u32,
    channels: u8,
    data: Vec<u8>,
}

impl View for Raster {
    type V = Picture;

    closed spec fn view(&self) -> Picture {
        Picture {
            width: self.width as nat,
            height: self.height as nat,
            channels: self.channels as nat,
            bytes: self.data@,
        }
    }
}

impl Raster {
    #[verifier::type_invariant]
    closed spec fn well_formed(&self) -> bool {
        self@.valid()
    }

    /// A buffer of the given bytes, or `None` if there are no channels or the number of
    /// bytes does not match.
    pub fn new(width: u32, height: u32, channels: u8, data: Vec<u8>) -> (r: Option<Raster>)
        ensures
            match r {
                Some(raster) => {
                    &&& raster@ == (Picture {
                        width: width as nat,
                        height: height as nat,
                        channels: channels as nat,
                        bytes: data@,
                    })
                    &&& raster@.valid()
                },
                None => channels == 0 || data.len() != width * height * channels,
            },
    {
        if channels == 0 {
            return None;
        }
        let pixels: u64 = mul_u32(width, height);
        let expected: u128 = mul_wide(pixels, channels);
        if data.len() as u128 != expected {
            return None;
        }
        Some(Raster { width, height, channels, data })
    }

    /// A buffer of exactly the bytes that the dimensions ask for.
    pub(crate) fn from_exact(width: u32, height: u32, channels: u8, data: Vec<u8>) -> (r: Raster)
        requires
            channels > 0,
            data.len() == width * height * channels,
        ensures
            r@ == (Picture {
                width: width as nat,
                height: height as nat,
                channels: channels as nat,
                bytes: data@,
            }),
            r@.valid(),
    {
        Raster { width, height, channels, data }
    }

    pub fn width(&self) -> (r: u32)
        ensures
            r == self@.width,
            self@.valid(),
    {
        proof {
            use_type_invariant(self);
        }
        self.width
    }

    pub fn height(&self) -> (r: u32)
        ensures
            r == self@.height,
            self@.valid(),
    {
        proof {
            use_type_invariant(self);
        }
        self.height
    }

    pub fn channels(&self) -> (r: u8)
        ensures
            r == self@.channels,
            self@.valid(),
    {
        proof {
            use_type_invariant(self);
        }
        self.channels
    }

    pub fn data(&self) -> (r: &[u8])
        ensures
            r@ == self@.bytes,
            self@.valid(),
    {
        proof {
            use_type_invariant(self);
        }
        self.data.as_slice()
    }

    pub fn into_data(self) -> (r: Vec<u8>)
        ensures
            r@ == self@.bytes,
            self@.valid(),
    {
        proof {
            use_type_invariant(&self);
        }
        self.data
    }

    /// The image turned and mirrored.
    pub fn transform(&self, s: Symmetry) -> (r: Raster)
        ensures
            self@.valid(),
            r@ == self@.transformed(s),
            r@.valid(),
    {
        proof {
            use_type_invariant(self);
            lemma_transformed_valid(self@, s);
        }
        let w: usize = self.width as usize;
        let h: usize = self.height as usize;
        let c: usize = self.channels as usize;
        let (new_w, new_h): (u32, u32) = if s.swap {
            (self.height, self.width)
        } else {
            (self.width, self.height)
        };
        let nw: usize = new_w as usize;
        let nh: usize = new_h as usize;
        let ghost target = self@.transformed(s);
        let mut out: Vec<u8> = Vec::new();
        let mut y: usize = 0;
        assert(0 * nw * c == 0) by (nonlinear_arith);
        while y < nh
            invariant
                self@.valid(),
                target == self@.transformed(s),
                target.valid(),
                w == self@.width,
                h == self@.height,
                c == self@.channels,
                nw == target.width,
                nh == target.height,
                y <= nh,
                out.len() == y * nw * c,
                forall|k: int| 0 <= k < out.len() ==> #[trigger] out@[k] == target.bytes[k],
            decreases nh - y,
        {
            let mut x: usize = 0;
            assert((y * nw + 0) * c == y * nw * c) by (nonlinear_arith);
            while x < nw
                invariant
                    self@.valid(),
                    target == self@.transformed(s),
                    target.valid(),
                    w == self@.width,
                    h == self@.height,
                    c == self@.channels,
                    nw == target.width,
                    nh == target.height,
                    y < nh,
                    x <= nw,
                    out.len() == (y * nw + x) * c,
                    forall|k: int| 0 <= k < out.len() ==> #[trigger] out@[k] == target.bytes[k],
                decreases nw - x,
            {
                let along_x: usize = if s.swap {
                    y
                } else {
                    x
                };
                let along_y: usize = if s.swap {
                    x
                } else {
                    y
                };
                let sx: usize = if s.flip_x {
                    w - 1 - along_x
                } else {
                    along_x
                };
                let sy: usize = if s.flip_y {
                    h - 1 - along_y
                } else {
                    along_y
                };
                let from: usize = first_byte(w, h, c, sx, sy, self.data.len());
                let mut channel: usize = 0;
                while channel < c
                    invariant
                        self@.valid(),
                        target == self@.transformed(s),
                        target.valid(),
                        c == self@.channels,
                        w == self@.width,
                        h == self@.height,
                        nw == target.width,
                        nh == target.height,
                        y < nh,
                        x < nw,
                        sx == s.source_x(w as int, x as int, y as int),
                        sy == s.source_y(h as int, x as int, y as int),
                        sx < w,
                        sy < h,
                        channel <= c,
                        from == byte_at(w as int, c as int, sx as int, sy as int, 0),
                        from + c <= self.data.len(),
                        out.len() == (y * nw + x) * c + channel,
                        forall|k: int|
                            0 <= k < out.len() ==> #[trigger] out@[k] == target.bytes[k],
                    decreases c - channel,
                {
                    proof {
                        lemma_byte_at(
                            nw as int,
                            nh as int,
                            c as int,
                            x as int,
                            y as int,
                            channel as int,
                        );
                        law_pixels_move(self@, s, x as int, y as int, channel as int);
                    }
                    out.push(self.data[from + channel]);
                    channel = channel + 1;
                }
                assert((y * nw + x) * c + c == (y * nw + (x + 1)) * c) by (nonlinear_arith);
                x = x + 1;
            }
            assert((y * nw + nw) * c == (y + 1) * nw * c) by (nonlinear_arith);
            y = y + 1;
        }
        assert(nh * nw * c == nw * nh * c) by (nonlinear_arith);
        assert(out@ =~= target.bytes);
        Raster { width: new_w, height: new_h, channels: self.channels, data: out }
    }
}

pub(crate) fn mul_u32(a: u32, b: u32) -> (r: u64)
    ensures
        r == a * b,
{
    assert(a * b <= u32::MAX * u32::MAX) by (nonlinear_arith)
        requires
            a <= u32::MAX,
            b <= u32::MAX,
    ;
    a as u64 * b as u64
}

pub(crate) fn mul_wide(a: u64, b: u8) -> (r: u128)
    ensures
        r == a * b,
{
    assert(a * b <= u64::MAX * 255) by (nonlinear_arith)
        requires
            a <= u64::MAX,
            b <= 255,
    ;
    a as u128 * b as u128
}

/// Where the pixel in column `x` and row `y` starts.
fn first_byte(w: usize, h: usize, c: usize, x: usize, y: usize, len: usize) -> (r: usize)
    requires
        x < w,
        y < h,
        c > 0,
        len == w * h * c,
    ensures
        r == byte_at(w as int, c as int, x as int, y as int, 0),
        r + c <= len,
{
    proof {
        lemma_byte_at(w as int, h as int, c as int, x as int, y as int, 0);
        lemma_byte_at(w as int, h as int, c as int, x as int, y as int, c - 1);
        let pixel = y * w + x;
        assert(pixel <= pixel * c) by (nonlinear_arith)
            requires
                c >= 1,
                pixel >= 0,
        ;
        assert(y * w >= 0) by (nonlinear_arith)
            requires
                y >= 0,
                w >= 0,
        ;
    }
    (y * w + x) * c
}

/// The symmetry that brings an image of the given EXIF orientation upright, for the
/// orientations that change something.
pub open spec fn upright(orientation: u16) -> Option<Symmetry> {
    if orientation == 2 {
        Some(Symmetry { swap: false, flip_x: true, flip_y: false })
    } else if orientation == 3 {
        Some(Symmetry::half())
    } else if orientation == 4 {
        Some(Symmetry { swap: false, flip_x: false, flip_y: true })
    } else if orientation == 5 {
        Some(Symmetry { swap: true, flip_x: false, flip_y: false })
    } else if orientation == 6 {
        Some(Symmetry::quarter())
    } else if orientation == 7 {
        Some(Symmetry { swap: true, flip_x: true, flip_y: true })
    } else if orientation == 8 {
        Some(Symmetry::three_quarters())
    } else {
        None
    }
}

/// The image brought upright.
pub open spec fn oriented(p: Picture, orientation: u16) -> Picture {
    match upright(orientation) {
        Some(s) => p.transformed(s),
        None => p,
    }
}

/// Bringing an image upright keeps the number of channels and of bytes.
pub proof fn law_orientation_keeps_valid(p: Picture, orientation: u16)
    requires
        p.valid(),
    ensures
        oriented(p, orientation).valid(),
        oriented(p, orientation).channels == p.channels,
        oriented(p, orientation).bytes.len() == p.bytes.len(),
{
    if let Some(s) = upright(orientation) {
        lemma_transformed_valid(p, s);
    }
}

/// Applies an EXIF orientation (1 to 8) by transforming the pixel buffer: 2 is mirrored
/// left to right, 3 upside down, 4 mirrored top to bottom, 5 transposed, 6 in need of a
/// quarter turn clockwise, 7 transposed along the other diagonal, 8 in need of a quarter
/// turn the other way. 1 and anything else stay as they are.
pub fn apply_orientation(img: Raster, orientation: u16) -> (r: Raster)
    ensures
        img@.valid(),
        r@ == oriented(img@, orientation),
        r@.valid(),
{
    proof {
        use_type_invariant(&img);
    }
    let s = match orientation {
        2 => Symmetry { swap: false, flip_x: true, flip_y: false },
        3 => Symmetry { swap: false, flip_x: true, flip_y: true },
        4 => Symmetry { swap: false, flip_x: false, flip_y: true },
        5 => Symmetry { swap: true, flip_x: false, flip_y: false },
        6 => Symmetry { swap: true, flip_x: false, flip_y: true },
        7 => Symmetry { swap: true, flip_x: true, flip_y: true },
        8 => Symmetry { swap: true, flip_x: true, flip_y: false },
        _ => return img,
    };
    img.transform(s)
}

/// The symmetry of a number of quarter turns clockwise; negative ones go the other way.
pub open spec fn turning(turns: int) -> Symmetry {
    if turns % 4 == 0 {
        Symmetry::identity()
    } else if turns % 4 == 1 {
        Symmetry::quarter()
    } else if turns % 4 == 2 {
        Symmetry::half()
    } else {
        Symmetry::three_quarters()
    }
}

/// The image after a number of quarter turns clockwise.
pub open spec fn turned(p: Picture, turns: int) -> Picture {
    p.transformed(turning(turns))
}

/// The image after a number of quarter turns, derived from the base each time so that
/// rotations never compound. Without a turn it is the base itself, shared.
pub fn rotate_turns(base: &Arc<Raster>, turns: i32) -> (r: Arc<Raster>)
    ensures
        base@.valid(),
        r@ == turned(base@, turns as int),
        turns as int % 4 == 0 ==> r == *base,
        r@.valid(),
{
    proof {
        use_type_invariant(&**base);
        law_identity_changes_nothing(base@);
    }
    let quarter: i64 = (turns as i64 + 0x1_0000_0000) % 4;
    if quarter == 1 {
        Arc::new(base.transform(Symmetry { swap: true, flip_x: false, flip_y: true }))
    } else if quarter == 2 {
        Arc::new(base.transform(Symmetry { swap: false, flip_x: true, flip_y: true }))
    } else if quarter == 3 {
        Arc::new(base.transform(Symmetry { swap: true, flip_x: true, flip_y: false }))
    } else {
        Arc::clone(base)
    }
}

/// Turns add up: turning by `a` and then by `b` is turning by `a + b`.
pub proof fn law_turns_add_up(p: Picture, a: int, b: int)
    requires
        p.valid(),
    ensures
        turned(p, a).valid(),
        turned(turned(p, a), b) == turned(p, a + b),
{
    lemma_transformed_valid(p, turning(a));
    law_symmetries_compose(p, turning(a), turning(b));
}

/// Four quarter turns lead back, and so does any multiple of four.
pub proof fn law_four_turns_lead_back(p: Picture, turns: int)
    requires
        p.valid(),
    ensures
        turned(p, 4) == p,
        turned(p, turns + 4) == turned(p, turns),
        turned(turned(p, turns), -turns) == p,
{
    law_identity_changes_nothing(p);
    law_turns_add_up(p, turns, -turns);
}

/// An odd number of quarter turns exchanges width and height, an even number keeps them.
pub proof fn law_odd_turns_swap_dimensions(p: Picture, turns: int)
    ensures
        turns % 2 == 0 ==> turned(p, turns).width == p.width && turned(p, turns).height
            == p.height,
        turns % 2 != 0 ==> turned(p, turns).width == p.height && turned(p, turns).height
            == p.width,
{
}

/// The orientation that undoes another: the two quarter turns undo each other, all others
/// undo themselves.
pub open spec fn opposite(orientation: u16) -> u16 {
    if orientation == 6 {
        8
    } else if orientation == 8 {
        6
    } else {
        orientation
    }
}

/// Every orientation can be undone.
pub proof fn law_orientations_undo(p: Picture, orientation: u16)
    requires
        p.valid(),
    ensures
        oriented(oriented(p, orientation), opposite(orientation)) == p,
{
    match upright(orientation) {
        Some(s) => {
            law_symmetries_compose(p, s, upright(opposite(orientation))->0);
            law_identity_changes_nothing(p);
        },
        None => {},
    }
}

/// The mirrored orientations are a mirroring left to right followed by turns: 5 and 7
/// turn three quarters and a quarter, 4 turns half.
pub proof fn law_mirrored_orientations_are_a_mirror_and_turns(p: Picture)
    requires
        p.valid(),
    ensures
        oriented(p, 5) == turned(oriented(p, 2), 3),
        oriented(p, 7) == turned(oriented(p, 2), 1),
        oriented(p, 4) == turned(oriented(p, 2), 2),
{
    let mirror = upright(2)->0;
    law_symmetries_compose(p, mirror, turning(3));
    law_symmetries_compose(p, mirror, turning(1));
    law_symmetries_compose(p, mirror, turning(2));
}

/// The dimensions that an image of the given size has once it is upright.
pub open spec fn upright_dimensions(w: u32, h: u32, orientation: Option<u16>) -> (u32, u32) {
    match orientation {
        Some(o) => if 5 <= o <= 8 {
            (h, w)
        } else {
            (w, h)
        },
        None => (w, h),
    }
}

/// The displayed dimensions, from the dimensions in the file's header, if it could be read,
/// and its orientation, if it has one: the orientations 5 to 8 exchange width and height.
pub fn display_dimensions(header: Option<(u32, u32)>, orientation: Option<u16>) -> (r: Option<
    (u32, u32),
>)
    ensures
        match header {
            Some((w, h)) => r == Some(upright_dimensions(w, h, orientation)),
            None => r is None,
        },
{
    match header {
        None => None,
        Some((w, h)) => match orientation {
            Some(5..=8) => Some((h, w)),
            _ => Some((w, h)),
        },
    }
}

/// The dimensions announced from the header are those of the image brought upright.
pub proof fn law_dimensions_agree_with_pixels(p: Picture, w: u32, h: u32, orientation: u16)
    requires
        p.width == w,
        p.height == h,
    ensures
        upright_dimensions(w, h, Some(orientation)).0 == oriented(p, orientation).width,
        upright_dimensions(w, h, Some(orientation)).1 == oriented(p, orientation).height,
{
}

/// The image with an opaque alpha channel after its own channels.
pub open spec fn with_alpha(p: Picture) -> Picture {
    Picture {
        width: p.width,
        height: p.height,
        channels: p.channels + 1,
        bytes: Seq::new(
            p.width * p.height * (p.channels + 1),
            |k: int|
                {
                    let pixel = k / (p.channels + 1) as int;
                    let channel = k % (p.channels + 1) as int;
                    if channel < p.channels {
                        p.bytes[pixel * p.channels + channel]
                    } else {
                        255u8
                    }
                },
        ),
    }
}

/// Adding the alpha channel keeps every channel of every pixel and makes every pixel
/// opaque.
pub proof fn law_alpha_keeps_colors(p: Picture, x: int, y: int, channel: int)
    requires
        p.valid(),
        with_alpha(p).has(x, y, channel),
    ensures
        with_alpha(p).valid(),
        with_alpha(p).at(x, y, channel) == if channel < p.channels {
            p.at(x, y, channel)
        } else {
            255
        },
{
    let q = with_alpha(p);
    lemma_byte_at(q.width as int, q.height as int, q.channels as int, x, y, channel);
}

/// It does not matter whether the alpha channel is added before or after turning and
/// mirroring.
pub proof fn law_alpha_commutes_with_symmetries(p: Picture, s: Symmetry)
    requires
        p.valid(),
    ensures
        with_alpha(p).transformed(s) == with_alpha(p.transformed(s)),
{
    let q = with_alpha(p);
    let before = q.transformed(s);
    let t = p.transformed(s);
    let after = with_alpha(t);
    lemma_transformed_valid(p, s);
    lemma_transformed_valid(q, s);
    assert(before.bytes.len() == after.bytes.len()) by {
        assert(p.width * p.height == p.height * p.width) by (nonlinear_arith);
    }
    assert forall|k: int| 0 <= k < before.bytes.len() implies before.bytes[k] == after.bytes[k] by {
        let (x, y, channel) = lemma_position(before, k);
        law_pixels_move(q, s, x, y, channel);
        let sx = s.source_x(p.width as int, x, y);
        let sy = s.source_y(p.height as int, x, y);
        law_alpha_keeps_colors(p, sx, sy, channel);
        law_alpha_keeps_colors(t, x, y, channel);
        if channel < p.channels {
            law_pixels_move(p, s, x, y, channel);
        }
        assert(before.bytes[k] == before.at(x, y, channel));
        assert(after.bytes[k] == after.at(x, y, channel));
    }
    assert(before =~= after);
}

/// Pixels in RGBA that are all opaque.
pub open spec fn opaque(bytes: Seq<u8>) -> bool {
    forall|k: int| 0 <= k < bytes.len() && k % 4 == 3 ==> #[trigger] bytes[k] == 255
}

/// Turning and mirroring leaves opaque pixels opaque, and an added alpha channel makes them
/// so; every pixel then has the alpha 255.
pub proof fn law_opaque_pixels_stay_opaque(p: Picture, s: Symmetry)
    requires
        p.valid(),
    ensures
        p.channels == 3 ==> opaque(with_alpha(p).bytes),
        p.channels == 4 && opaque(p.bytes) ==> {
            &&& opaque(p.transformed(s).bytes)
            &&& forall|x: int, y: int| p.has(x, y, 3) ==> #[trigger] p.at(x, y, 3) == 255
        },
{
    if p.channels == 4 && opaque(p.bytes) {
        assert forall|x: int, y: int| p.has(x, y, 3) implies #[trigger] p.at(x, y, 3) == 255 by {
            lemma_byte_at(p.width as int, p.height as int, 4, x, y, 3);
        }
        let q = p.transformed(s);
        lemma_transformed_valid(p, s);
        assert forall|k: int| 0 <= k < q.bytes.len() && k % 4 == 3 implies #[trigger] q.bytes[k]
            == 255 by {
            let (x, y, channel) = lemma_position(q, k);
            lemma_byte_at(q.width as int, q.height as int, 4, x, y, channel);
            law_pixels_move(p, s, x, y, channel);
            assert(q.at(x, y, 3) == q.bytes[k]);
            let sx = s.source_x(p.width as int, x, y);
            let sy = s.source_y(p.height as int, x, y);
            assert(p.has(sx, sy, 3));
            assert(p.at(sx, sy, 3) == 255);
        }
    }
}

/// Adds an opaque alpha channel to an image of three channels.
pub fn add_alpha(img: &Raster) -> (r: Option<Raster>)
    requires
        img@.channels == 3,
    ensures
        img@.valid(),
        r is None <==> img@.width * img@.height * 4 > usize::MAX,
        r matches Some(raster) ==> raster@ == with_alpha(img@) && raster@.valid(),
{
    proof {
        use_type_invariant(img);
    }
    let pixels: u64 = mul_u32(img.width, img.height);
    let size: u128 = mul_wide(pixels, 4);
    if size > usize::MAX as u128 {
        return None;
    }
    let ghost target = with_alpha(img@);
    proof {
        let d = img@.channels + 1;
        assert(pixels * d == 4 * pixels) by (nonlinear_arith)
            requires
                d == 4,
        ;
    }
    let mut out: Vec<u8> = Vec::new();
    let mut i: usize = 0;
    while 3 * i < img.data.len()
        invariant
            img.data@ == img@.bytes,
            img@.valid(),
            img@.channels == 3,
            target == with_alpha(img@),
            pixels == img@.width * img@.height,
            img.data.len() == 3 * pixels,
            4 * pixels <= usize::MAX,
            target.bytes.len() == 4 * pixels,
            i <= pixels,
            out.len() == 4 * i,
            forall|k: int| 0 <= k < out.len() ==> #[trigger] out@[k] == target.bytes[k],
        decreases pixels - i,
    {
        proof {
            let d = (img@.channels + 1) as int;
            assert(d == 4);
            assert forall|c: int| 0 <= c < 4 implies #[trigger] target.bytes[4 * i + c] == if c < 3 {
                img@.bytes[3 * i + c]
            } else {
                255u8
            } by {
                let k = 4 * i + c;
                assert(k / d == i && k % d == c);
                assert(i * img@.channels == 3 * i);
            }
            assert(target.bytes[4 * i + 0] == img@.bytes[3 * i + 0]);
            assert(target.bytes[4 * i + 1] == img@.bytes[3 * i + 1]);
            assert(target.bytes[4 * i + 2] == img@.bytes[3 * i + 2]);
            assert(target.bytes[4 * i + 3] == 255);
        }
        out.push(img.data[3 * i]);
        out.push(img.data[3 * i + 1]);
        out.push(img.data[3 * i + 2]);
        out.push(255);
        i = i + 1;
    }
    assert(out@ =~= target.bytes);
    Some(Raster { width: img.width, height: img.height, channels: 4, data: out })
}

/// A channel of the pixel in column `x` and row `y`, in bytes that hold the pixels row by row
/// from the top, each row from the left.
pub open spec fn pixel_byte(
    bytes: Seq<u8>,
    width: int,
    channels: int,
    x: int,
    y: int,
    channel: int,
) -> u8 {
    bytes[(y * width + x) * channels + channel]
}

/// Where the pixel comes from that an image of width `w` and height `h` and of the given EXIF
/// orientation has in column `x` and row `y` once it is upright.
pub open spec fn upright_source(orientation: int, w: int, h: int, x: int, y: int) -> (int, int) {
    if orientation == 2 {
        (w - 1 - x, y)
    } else if orientation == 3 {
        (w - 1 - x, h - 1 - y)
    } else if orientation == 4 {
        (x, h - 1 - y)
    } else if orientation == 5 {
        (y, x)
    } else if orientation == 6 {
        (y, h - 1 - x)
    } else if orientation == 7 {
        (w - 1 - y, h - 1 - x)
    } else if orientation == 8 {
        (w - 1 - y, x)
    } else {
        (x, y)
    }
}

/// What bringing an image upright does to its pixels: the orientations 5 to 8 exchange width
/// and height, and each pixel comes from where the orientation says.
pub proof fn law_oriented_pixels(p: Picture, orientation: u16, x: int, y: int, channel: int)
    requires
        p.valid(),
        0 <= channel < p.channels,
        0 <= x < if 5 <= orientation <= 8 {
            p.height
        } else {
            p.width
        },
        0 <= y < if 5 <= orientation <= 8 {
            p.width
        } else {
            p.height
        },
    ensures
        ({
            let q = oriented(p, orientation);
            let (sx, sy) = upright_source(
                orientation as int,
                p.width as int,
                p.height as int,
                x,
                y,
            );
            &&& 0 <= sx < p.width
            &&& 0 <= sy < p.height
            &&& pixel_byte(q.bytes, q.width as int, q.channels as int, x, y, channel)
                == pixel_byte(p.bytes, p.width as int, p.channels as int, sx, sy, channel)
        }),
{
    if let Some(s) = upright(orientation) {
        law_pixels_move(p, s, x, y, channel);
    }
}

/// What becomes of the size when an image is brought upright; and an orientation other than 2
/// to 8 changes nothing at all.
pub proof fn law_oriented_size(p: Picture, orientation: u16)
    requires
        p.valid(),
    ensures
        oriented(p, orientation).channels == p.channels,
        oriented(p, orientation).bytes.len() == p.bytes.len(),
        5 <= orientation <= 8 ==> oriented(p, orientation).width == p.height && oriented(
            p,
            orientation,
        ).height == p.width,
        !(5 <= orientation <= 8) ==> oriented(p, orientation).width == p.width && oriented(
            p,
            orientation,
        ).height == p.height,
        !(2 <= orientation <= 8) ==> oriented(p, orientation) == p,
{
}

/// An image that was brought upright, pixel by pixel.
pub proof fn law_orientation_is_applied(
    img: Raster,
    orientation: u16,
    r: Raster,
    x: int,
    y: int,
    channel: int,
)
    requires
        call_ensures(apply_orientation, (img, orientation), r),
        0 <= x < r@.width,
        0 <= y < r@.height,
        0 <= channel < r@.channels,
    ensures
        r@.channels == img@.channels,
        (r@.width, r@.height) == if 5 <= orientation <= 8 {
            (img@.height, img@.width)
        } else {
            (img@.width, img@.height)
        },
        ({
            let (w, h) = (img@.width as int, img@.height as int);
            let c = img@.channels as int;
            let (sx, sy) = upright_source(orientation as int, w, h, x, y);
            pixel_byte(r@.bytes, r@.width as int, c, x, y, channel) == pixel_byte(
                img@.bytes,
                w,
                c,
                sx,
                sy,
                channel,
            )
        }),
        !(2 <= orientation <= 8) ==> r@ == img@,
{
    law_oriented_size(img@, orientation);
    law_oriented_pixels(img@, orientation, x, y, channel);
}

/// Where the pixel comes from that an image has in column `x` and row `y` after quarter turns
/// clockwise: after one, the left column is at the top.
pub open spec fn turned_source(turns: int, w: int, h: int, x: int, y: int) -> (int, int) {
    if turns % 4 == 1 {
        (y, h - 1 - x)
    } else if turns % 4 == 2 {
        (w - 1 - x, h - 1 - y)
    } else if turns % 4 == 3 {
        (w - 1 - y, x)
    } else {
        (x, y)
    }
}

/// An image after quarter turns clockwise, pixel by pixel: an odd number exchanges width and
/// height.
pub proof fn law_turned_pixels(p: Picture, turns: int, x: int, y: int, channel: int)
    requires
        p.valid(),
        0 <= x < turned(p, turns).width,
        0 <= y < turned(p, turns).height,
        0 <= channel < p.channels,
    ensures
        ({
            let q = turned(p, turns);
            let (sx, sy) = turned_source(turns, p.width as int, p.height as int, x, y);
            &&& q.channels == p.channels
            &&& (q.width, q.height) == if turns % 2 == 0 {
                (p.width, p.height)
            } else {
                (p.height, p.width)
            }
            &&& pixel_byte(q.bytes, q.width as int, q.channels as int, x, y, channel)
                == pixel_byte(p.bytes, p.width as int, p.channels as int, sx, sy, channel)
        }),
{
    law_pixels_move(p, turning(turns), x, y, channel);
}

/// The base that was turned, pixel by pixel; without a turn it is the base itself.
pub proof fn law_turns_are_applied(
    base: &Arc<Raster>,
    turns: i32,
    r: Arc<Raster>,
    x: int,
    y: int,
    channel: int,
)
    requires
        call_ensures(rotate_turns, (base, turns), r),
        0 <= x < r@.width,
        0 <= y < r@.height,
        0 <= channel < r@.channels,
    ensures
        r@.channels == base@.channels,
        (r@.width, r@.height) == if turns as int % 2 == 0 {
            (base@.width, base@.height)
        } else {
            (base@.height, base@.width)
        },
        ({
            let (w, h) = (base@.width as int, base@.height as int);
            let c = base@.channels as int;
            let (sx, sy) = turned_source(turns as int, w, h, x, y);
            pixel_byte(r@.bytes, r@.width as int, c, x, y, channel) == pixel_byte(
                base@.bytes,
                w,
                c,
                sx,
                sy,
                channel,
            )
        }),
        turns as int % 4 == 0 ==> r == *base,
{
    law_turned_pixels(base@, turns as int, x, y, channel);
}

/// What a symmetry does to the pixels: with `swap` column and row change places; then each is
/// counted from the other end where that is asked for.
pub proof fn law_symmetry_is_applied(
    img: &Raster,
    s: Symmetry,
    r: Raster,
    x: int,
    y: int,
    channel: int,
)
    requires
        call_ensures(Raster::transform, (img, s), r),
        0 <= x < r@.width,
        0 <= y < r@.height,
        0 <= channel < r@.channels,
    ensures
        r@.channels == img@.channels,
        (r@.width, r@.height) == if s.swap {
            (img@.height, img@.width)
        } else {
            (img@.width, img@.height)
        },
        ({
            let (w, h) = (img@.width as int, img@.height as int);
            let c = img@.channels as int;
            let (u, v) = if s.swap {
                (y, x)
            } else {
                (x, y)
            };
            let sx = if s.flip_x {
                w - 1 - u
            } else {
                u
            };
            let sy = if s.flip_y {
                h - 1 - v
            } else {
                v
            };
            pixel_byte(r@.bytes, r@.width as int, c, x, y, channel) == pixel_byte(
                img@.bytes,
                w,
                c,
                sx,
                sy,
                channel,
            )
        }),
{
    law_pixels_move(img@, s, x, y, channel);
}

/// An image of three channels with an alpha channel added: of each four bytes the first three
/// are those of the pixel, and the fourth is 255. The size stays.
pub proof fn law_alpha_is_added(img: &Raster, r: Option<Raster>, pixel: int)
    requires
        call_ensures(add_alpha, (img,), r),
        img@.channels == 3,
        0 <= pixel < img@.width * img@.height,
    ensures
        r is None <==> img@.width * img@.height * 4 > usize::MAX,
        r matches Some(q) ==> {
            &&& q@.width == img@.width
            &&& q@.height == img@.height
            &&& q@.channels == 4
            &&& q@.bytes.len() == img@.width * img@.height * 4
            &&& q@.bytes[4 * pixel] == img@.bytes[3 * pixel]
            &&& q@.bytes[4 * pixel + 1] == img@.bytes[3 * pixel + 1]
            &&& q@.bytes[4 * pixel + 2] == img@.bytes[3 * pixel + 2]
            &&& q@.bytes[4 * pixel + 3] == 255
        },
{
    law_alpha_bytes(img@, pixel);
}

/// The bytes of an image of three channels once it has an alpha channel.
pub proof fn law_alpha_bytes(p: Picture, pixel: int)
    requires
        p.channels == 3,
        0 <= pixel < p.width * p.height,
    ensures
        with_alpha(p).width == p.width,
        with_alpha(p).height == p.height,
        with_alpha(p).channels == 4,
        with_alpha(p).bytes.len() == p.width * p.height * 4,
        with_alpha(p).bytes[4 * pixel] == p.bytes[3 * pixel],
        with_alpha(p).bytes[4 * pixel + 1] == p.bytes[3 * pixel + 1],
        with_alpha(p).bytes[4 * pixel + 2] == p.bytes[3 * pixel + 2],
        with_alpha(p).bytes[4 * pixel + 3] == 255,
{
    let q = with_alpha(p);
    let n = (p.channels + 1) as int;
    assert(n == 4);
    assert(p.width * p.height * (p.channels + 1) == 4 * (p.width * p.height)) by (nonlinear_arith)
        requires
            p.channels == 3,
    ;
    assert forall|c: int| 0 <= c < 4 implies #[trigger] q.bytes[4 * pixel + c] == if c < 3 {
        p.bytes[3 * pixel + c]
    } else {
        255u8
    } by {
        let k = 4 * pixel + c;
        assert(k / n == pixel && k % n == c);
        assert(pixel * p.channels == 3 * pixel);
    }
    assert(q.bytes[4 * pixel + 0] == p.bytes[3 * pixel + 0]);
    assert(q.bytes[4 * pixel + 1] == p.bytes[3 * pixel + 1]);
    assert(q.bytes[4 * pixel + 2] == p.bytes[3 * pixel + 2]);
    assert(q.bytes[4 * pixel + 3] == 255);
}

/// A buffer holds what it was made of and hands it out again; one that does not match its
/// dimensions is refused.
pub proof fn law_buffers_hold_their_bytes(
    width: u32,
    height: u32,
    channels: u8,
    data: Vec<u8>,
    r: Option<Raster>,
    w: u32,
    h: u32,
    c: u8,
    bytes: &[u8],
    owned: Vec<u8>,
)
    requires
        call_ensures(Raster::new, (width, height, channels, data), r),
        r matches Some(img) ==> {
            &&& call_ensures(Raster::width, (&img,), w)
            &&& call_ensures(Raster::height, (&img,), h)
            &&& call_ensures(Raster::channels, (&img,), c)
            &&& call_ensures(Raster::data, (&img,), bytes)
            &&& call_ensures(Raster::into_data, (img,), owned)
        },
    ensures
        r is Some <==> channels > 0 && data@.len() == width * height * channels,
        r is Some ==> w == width && h == height && c == channels && bytes@ == data@ && owned@
            == data@,
{
}

/// The dimensions on screen are those of the header, exchanged for the orientations 5 to 8.
pub proof fn law_header_tells_the_dimensions(
    header: Option<(u32, u32)>,
    orientation: Option<u16>,
    r: Option<(u32, u32)>,
)
    requires
        call_ensures(display_dimensions, (header, orientation), r),
    ensures
        r is Some <==> header is Some,
        header matches Some((w, h)) ==> if orientation is Some && 5 <= orientation->0 <= 8 {
            r == Some((h, w))
        } else {
            r == Some((w, h))
        },
{
}

} // verus!
