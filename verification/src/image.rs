//! The output buffer: a dense row-major grid of linear-color pixels, with
//! the gamma-encoding step that turns a linear channel into a display byte.
//! Serializing the bytes to a file is the caller's business.

use vstd::prelude::*;
use crate::fixed::{
    SCALE, fx_sqrt, fx_sqrt_spec, lemma_fx_sqrt_bound, lemma_tdiv_monotone, tdiv, tdiv_spec,
};
use crate::material::color_wf;
use crate::vector3::{COORD_LIM, V3, Vector3};

verus! {

/// A color in linear space; the name it carries when it stands in a buffer.
pub type Pixel = Vector3;

/// A dense row-major buffer of linear-color pixels; pixel `(x, y)` lives at
/// index `x + y * w`.
pub struct Image {
    pub data: Vec<Pixel>,
    pub w: u32,
    pub h: u32,
}

/// The gamma encoding of one linear channel: its fixed-point square root,
/// with nonpositive values mapped to zero.
pub open spec fn gamma_spec(linear: int) -> int {
    if linear > 0 {
        fx_sqrt_spec(linear)
    } else {
        0
    }
}

/// The display byte of one linear channel: gamma-encode, then scale the
/// unit interval onto `0..=255`, rounding toward zero.
pub open spec fn channel_byte_spec(linear: int) -> int {
    tdiv_spec(gamma_spec(linear) * 255, SCALE as int)
}

/// The color packed as `0xRRGGBBAA`: each channel byte scaled onto the unit
/// interval (the low alpha byte is dropped).
pub open spec fn pixel_of_packed(value: u32) -> V3 {
    V3 {
        x: tdiv_spec((((value >> 24) & 0xff) as int) * (SCALE as int), 255),
        y: tdiv_spec((((value >> 16) & 0xff) as int) * (SCALE as int), 255),
        z: tdiv_spec((((value >> 8) & 0xff) as int) * (SCALE as int), 255),
    }
}

impl core::convert::From<u32> for Pixel {
    /// The color packed as `0xRRGGBBAA`.
    fn from(value: u32) -> (r: Self) {
        proof {
            assert((value >> 24) & 0xff <= 0xff) by (bit_vector);
            assert((value >> 16) & 0xff <= 0xff) by (bit_vector);
            assert((value >> 8) & 0xff <= 0xff) by (bit_vector);
        }
        let x = tdiv((((value >> 24) & 0xff) as i128) * SCALE, 255);
        let y = tdiv((((value >> 16) & 0xff) as i128) * SCALE, 255);
        let z = tdiv((((value >> 8) & 0xff) as i128) * SCALE, 255);
        Vector3 { x, y, z }
    }
}

impl vstd::std_specs::convert::FromSpecImpl<u32> for Pixel {
    open spec fn obeys_from_spec() -> bool {
        true
    }

    open spec fn from_spec(v: u32) -> Pixel {
        Vector3 {
            x: tdiv_spec((((v >> 24) & 0xff) as int) * (SCALE as int), 255) as i128,
            y: tdiv_spec((((v >> 16) & 0xff) as int) * (SCALE as int), 255) as i128,
            z: tdiv_spec((((v >> 8) & 0xff) as int) * (SCALE as int), 255) as i128,
        }
    }
}

impl Image {
    /// A black image of the given dimensions.
    pub fn new(w: u32, h: u32) -> (img: Self)
        requires
            (w as int) * (h as int) <= 0x1000_0000,
        ensures
            img.w == w,
            img.h == h,
            img.data@.len() == (w as int) * (h as int),
            forall|k: int|
                0 <= k < img.data@.len() ==> (#[trigger] img.data@[k])@ == (V3 {
                    x: 0,
                    y: 0,
                    z: 0,
                }),
    {
        let n: usize = (w as usize) * (h as usize);
        let mut data: Vec<Pixel> = Vec::new();
        let mut i: usize = 0;
        while i < n
            invariant
                i <= n,
                data@.len() == i as int,
                forall|k: int|
                    0 <= k < i as int ==> (#[trigger] data@[k])@ == (V3 { x: 0, y: 0, z: 0 }),
            decreases n - i,
        {
            data.push(Vector3::from_scalar(0));
            i = i + 1;
        }
        Self { data, w, h }
    }

    /// Gamma-encode one linear channel.
    pub fn linear_to_gamma(linear: i128) -> (r: i128)
        requires
            linear <= COORD_LIM,
        ensures
            r == gamma_spec(linear as int),
            0 <= r,
    {
        if linear > 0 {
            fx_sqrt(linear)
        } else {
            0
        }
    }

    /// The buffer as gamma-encoded display bytes, three per pixel in
    /// row-major order. Every pixel must be a color in the unit cube.
    pub fn to_rgb8(&self) -> (bytes: Vec<u8>)
        requires
            forall|k: int| 0 <= k < self.data@.len() ==> color_wf((#[trigger] self.data@[k])@),
        ensures
            bytes@.len() == 3 * self.data@.len(),
            forall|k: int|
                0 <= k < self.data@.len() ==> {
                    &&& bytes@[3 * k] as int == channel_byte_spec((#[trigger] self.data@[k])@.x)
                    &&& bytes@[3 * k + 1] as int == channel_byte_spec(self.data@[k]@.y)
                    &&& bytes@[3 * k + 2] as int == channel_byte_spec(self.data@[k]@.z)
                },
    {
        let mut bytes: Vec<u8> = Vec::new();
        let n = self.data.len();
        let mut i: usize = 0;
        while i < n
            invariant
                i <= n,
                n == self.data@.len(),
                forall|k: int| 0 <= k < n as int ==> color_wf((#[trigger] self.data@[k])@),
                bytes@.len() == 3 * i as int,
                forall|k: int|
                    0 <= k < i as int ==> {
                        &&& bytes@[3 * k] as int == channel_byte_spec(
                            (#[trigger] self.data@[k])@.x,
                        )
                        &&& bytes@[3 * k + 1] as int == channel_byte_spec(self.data@[k]@.y)
                        &&& bytes@[3 * k + 2] as int == channel_byte_spec(self.data@[k]@.z)
                    },
            decreases n - i,
        {
            let p = self.data[i];
            bytes.push(Self::channel_byte(p.x));
            bytes.push(Self::channel_byte(p.y));
            bytes.push(Self::channel_byte(p.z));
            i = i + 1;
        }
        bytes
    }

    /// The display byte of one linear channel in the unit interval.
    pub fn channel_byte(linear: i128) -> (b: u8)
        requires
            0 <= linear <= SCALE,
        ensures
            b as int == channel_byte_spec(linear as int),
    {
        let g = Self::linear_to_gamma(linear);
        proof {
            if linear > 0 {
                lemma_fx_sqrt_bound(linear as int, SCALE as int);
            }
            lemma_tdiv_monotone(g * 255, (SCALE as int) * 255, SCALE as int);
            vstd::arithmetic::div_mod::lemma_div_multiples_vanish(255, SCALE as int);
        }
        let b = tdiv(g * 255, SCALE);
        b as u8
    }
}

} // verus!
