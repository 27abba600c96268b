//! Inline images: PNG data and its Base64 text.
use base64::engine::general_purpose::STANDARD;
use base64::Engine;
use image::codecs::png::PngEncoder;
use image::{ExtendedColorType, ImageEncoder};
use vstd::prelude::*;

verus! {

/// The PNG file that the `image` crate's encoder makes of RGBA pixels; `None` if it refuses them.
pub uninterp spec fn png_of(rgba: Seq<u8>, width: u32, height: u32) -> Option<Seq<u8>>;

/// `PngEncoder::write_image` into a buffer, for 8-bit RGBA. The file is a function of the pixels
/// and the dimensions. The encoder panics where the number of bytes does not fit the dimensions.
/// Which bytes the file holds is the encoder's matter.
#[verifier::external_body]
fn encode_png(rgba: &[u8], width: u32, height: u32) -> (png: Option<Vec<u8>>)
    requires
        rgba@.len() == width * height * 4,
    ensures
        png.deep_view() == png_of(rgba@, width, height),
{
    let mut png = Vec::new();
    let encoder = PngEncoder::new(&mut png);
    encoder.write_image(rgba, width, height, ExtendedColorType::Rgba8).ok()?;
    Some(png)
}

/// Public RGBA→PNG for cat mode.
pub fn rgba_to_png_pub(rgba: &[u8], width: u32, height: u32) -> (png: Option<Vec<u8>>)
    requires
        rgba@.len() == width * height * 4,
    ensures
        png.deep_view() == png_of(rgba@, width, height),
{
    encode_png(rgba, width, height)
}

/// The character for six bits in the standard Base64 alphabet.
pub open spec fn base64_char(bits: int) -> char {
    if bits < 26 {
        (('A' as u8) + bits) as u8 as char
    } else if bits < 52 {
        (('a' as u8) + bits - 26) as u8 as char
    } else if bits < 62 {
        (('0' as u8) + bits - 52) as u8 as char
    } else if bits == 62 {
        '+'
    } else {
        '/'
    }
}

/// Bytes as standard Base64 with padding: four characters for each three bytes, six bits each,
/// with `=` where a last group lacks bytes.
pub open spec fn base64_of(bytes: Seq<u8>) -> Seq<char>
    decreases bytes.len(),
{
    if bytes.len() == 0 {
        Seq::empty()
    } else {
        let n = bytes.len();
        let a = bytes[0] as int;
        let b = if n > 1 { bytes[1] as int } else { 0 };
        let c = if n > 2 { bytes[2] as int } else { 0 };
        seq![
            base64_char(a / 4),
            base64_char(a % 4 * 16 + b / 16),
            if n > 1 { base64_char(b % 16 * 4 + c / 64) } else { '=' },
            if n > 2 { base64_char(c % 64) } else { '=' },
        ] + base64_of(if n > 3 { bytes.skip(3) } else { Seq::empty() })
    }
}

/// `STANDARD.encode`: the standard alphabet with padding. The text of any slice fits in the
/// address space of a buffer length, as a slice holds at most `isize::MAX` bytes.
#[verifier::external_body]
pub(crate) fn encode_base64(bytes: &[u8]) -> (text: String)
    ensures
        text@ == base64_of(bytes@),
{
    STANDARD.encode(bytes)
}

/// The characters of Base64, by the six bits that they stand for.
pub open spec fn base64_alphabet() -> Seq<char> {
    "ABCDEFGHIJKLMNOPQRSTUVWXYZabcdefghijklmnopqrstuvwxyz0123456789+/"@
}

/// The character for six bits is the one of the alphabet in that place.
pub proof fn law_base64_alphabet(bits: int)
    requires
        0 <= bits < 64,
    ensures
        base64_alphabet().len() == 64,
        base64_char(bits) == base64_alphabet()[bits],
{
    reveal_strlit("ABCDEFGHIJKLMNOPQRSTUVWXYZabcdefghijklmnopqrstuvwxyz0123456789+/");
}

/// Three bytes are four characters, six bits each from the first bit on; two bytes at the end are
/// three characters and one sign, and one byte is two characters and two signs.
pub proof fn law_base64_groups(a: u8, b: u8, c: u8, rest: Seq<u8>)
    ensures
        exists|p: int, q: int, r: int, s: int|
            {
                &&& 0 <= p < 64 && 0 <= q < 64 && 0 <= r < 64 && 0 <= s < 64
                &&& p * 0x40000 + q * 0x1000 + r * 0x40 + s == a * 0x10000 + b * 0x100 + c
                &&& base64_of(seq![a, b, c] + rest) == #[trigger] seq![
                    base64_char(p),
                    base64_char(q),
                    base64_char(r),
                    base64_char(s),
                ] + base64_of(rest)
            },
        exists|p: int, q: int, r: int|
            {
                &&& 0 <= p < 64 && 0 <= q < 64 && 0 <= r < 64
                &&& p * 0x1000 + q * 0x40 + r == (a * 0x100 + b) * 4
                &&& base64_of(seq![a, b]) == #[trigger] seq![
                    base64_char(p),
                    base64_char(q),
                    base64_char(r),
                    '=',
                ]
            },
        exists|p: int, q: int|
            {
                &&& 0 <= p < 64 && 0 <= q < 64
                &&& p * 0x40 + q == a * 16
                &&& base64_of(seq![a]) == #[trigger] seq![base64_char(p), base64_char(q), '=', '=']
            },
        base64_of(Seq::empty()) == Seq::<char>::empty(),
{
    let none = Seq::<u8>::empty();
    let (x, y, z) = (a as int, b as int, c as int);
    let all = seq![a, b, c] + rest;
    assert(all.skip(3) =~= rest);
    if rest.len() == 0 {
        assert(rest =~= none);
    }
    let (p, q, r, s) = (x / 4, x % 4 * 16 + y / 16, y % 16 * 4 + z / 64, z % 64);
    let four = seq![base64_char(p), base64_char(q), base64_char(r), base64_char(s)];
    assert(base64_of(all) == four + base64_of(rest));
    assert(p * 0x40000 + q * 0x1000 + r * 0x40 + s == x * 0x10000 + y * 0x100 + z);
    let t = y % 16 * 4;
    let three = seq![base64_char(p), base64_char(q), base64_char(t), '='];
    assert(base64_of(none) =~= Seq::<char>::empty());
    assert(base64_of(seq![a, b]) =~= three);
    assert(p * 0x1000 + q * 0x40 + t == (x * 0x100 + y) * 4);
    let u = x % 4 * 16;
    let two = seq![base64_char(p), base64_char(u), '=', '='];
    assert(base64_of(seq![a]) =~= two);
}

} // verus!
