use crate::arithmetic::{is_product, is_root, Arithmetic};
use crate::scalar::{lemma_positive, lemma_weight_orders, Scalar};
use crate::vec3::Vec3;
use vstd::prelude::*;

verus! {

/// The pattern of the binary64 number nearest to 0.999: the brightest that an
/// encoded channel gets.
pub const BRIGHTEST_BITS: u64 = 0x3FEF_F7CE_D916_872B;

/// The pattern of the binary64 number nearest to 255.999: the factor from an
/// encoded channel to the range of a byte.
pub const BYTE_SCALE_BITS: u64 = 0x406F_FFF7_CED9_1687;

/// One pixel of the finished image: red, green and blue, eight bits each.
#[derive(Debug, Clone, Copy, PartialEq, Eq, Structural)]
pub struct Color {
    pub r: u8,
    pub g: u8,
    pub b: u8,
}

/// The ten digits in order.
pub open spec fn digit(d: nat) -> char
    recommends
        d < 10,
{
    seq!['0', '1', '2', '3', '4', '5', '6', '7', '8', '9'][d as int]
}

/// A number written in decimal, without leading zeros.
pub open spec fn decimal(n: nat) -> Seq<char>
    decreases n,
{
    if n < 10 {
        seq![digit(n)]
    } else {
        decimal(n / 10).push(digit(n % 10))
    }
}

/// Formats three numbers in decimal with one space between them, through
/// `format!`, which writes an unsigned integer as its decimal digits without
/// sign, padding or leading zeros.
#[verifier::external_body]
fn format_channels(r: u8, g: u8, b: u8) -> (s: String)
    ensures
        s@ == decimal(r as nat) + seq![' '] + decimal(g as nat) + seq![' '] + decimal(b as nat),
{
    format!("{} {} {}", r, g, b)
}

impl Color {
    /// The pixel as a line of text.
    pub open spec fn text_spec(self) -> Seq<char> {
        decimal(self.r as nat) + seq![' '] + decimal(self.g as nat) + seq![' '] + decimal(
            self.b as nat,
        )
    }

    /// Whether `byte` encodes the linear channel value `x`: gamma two, which
    /// is the square root of a value above zero and zero for any other, held
    /// to the range from zero to the brightest, times the scale of a byte,
    /// truncated.
    pub open spec fn encodes<A: Arithmetic>(arith: &A, x: Scalar, byte: u8) -> bool {
        exists|gamma: Scalar, scaled: Scalar|
            {
                &&& if (Scalar { bits: 0 }).lt_spec(x) {
                    is_root(arith, x, gamma)
                } else {
                    gamma == (Scalar { bits: 0 })
                }
                &&& #[trigger] is_product(
                    arith,
                    Scalar { bits: BYTE_SCALE_BITS },
                    gamma.clamp_spec(Scalar { bits: 0 }, Scalar { bits: BRIGHTEST_BITS }),
                    scaled,
                )
                &&& byte == if scaled.whole() < 255 {
                    scaled.whole()
                } else {
                    255
                }
            }
    }

    /// Whether `color` is the pixel of the linear colour `linear`: each
    /// channel encoded by itself.
    pub open spec fn is_encoding<A: Arithmetic>(arith: &A, linear: Vec3, color: Color) -> bool {
        &&& Self::encodes(arith, linear.x, color.r)
        &&& Self::encodes(arith, linear.y, color.g)
        &&& Self::encodes(arith, linear.z, color.b)
    }

    /// The pixel of three channels.
    pub fn new(r: u8, g: u8, b: u8) -> (c: Color)
        ensures
            c == (Color { r, g, b }),
    {
        Color { r, g, b }
    }

    /// One linear channel value as a byte.
    fn encode<A: Arithmetic>(arith: &A, x: Scalar) -> (byte: u8)
        ensures
            Self::encodes(arith, x, byte),
    {
        let gamma = if x.gt(Scalar::zero()) {
            arith.sqrt(x)
        } else {
            Scalar::zero()
        };
        proof {
            lemma_positive(0);
            lemma_positive(BRIGHTEST_BITS);
            lemma_weight_orders(0, BRIGHTEST_BITS);
        }
        let held = gamma.clamp(Scalar::zero(), Scalar::from_bits(BRIGHTEST_BITS));
        let scaled = arith.mul(Scalar::from_bits(BYTE_SCALE_BITS), held);
        proof {
            assert(held == gamma.clamp_spec(Scalar { bits: 0 }, Scalar { bits: BRIGHTEST_BITS }));
            assert(is_product(
                arith,
                Scalar { bits: BYTE_SCALE_BITS },
                gamma.clamp_spec(Scalar { bits: 0 }, Scalar { bits: BRIGHTEST_BITS }),
                scaled,
            ));
        }
        scaled.to_u8()
    }

    /// The pixel of a linear colour: every channel through gamma two, held to
    /// the range from zero to the brightest, scaled to the range of a byte and
    /// truncated.
    pub fn from_linear<A: Arithmetic>(linear: Vec3, arith: &A) -> (c: Color)
        ensures
            Self::is_encoding(arith, linear, c),
    {
        let r: u8 = Self::encode(arith, linear.x);
        let g: u8 = Self::encode(arith, linear.y);
        let b: u8 = Self::encode(arith, linear.z);
        Color { r, g, b }
    }

    /// The three channels in decimal, red first, with one space between them.
    pub fn to_text(&self) -> (s: String)
        ensures
            s@ == self.text_spec(),
    {
        format_channels(self.r, self.g, self.b)
    }
}

} // verus!
