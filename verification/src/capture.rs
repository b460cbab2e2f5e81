use vstd::prelude::*;

verus! {

/// The RGB bytes of the complete BGRA pixels of `src`, in order; a trailing
/// partial pixel is ignored.
pub open spec fn rgb_from_bgra(src: Seq<u8>) -> Seq<u8>
    decreases src.len(),
{
    if src.len() < 4 {
        seq![]
    } else {
        seq![src[2], src[1], src[0]] + rgb_from_bgra(src.skip(4))
    }
}

/// Converts captured BGRA pixels to the RGB layout the JPEG encoder takes.
pub fn bgra_to_rgb(src: &[u8]) -> (r: Vec<u8>)
    ensures
        r@ == rgb_from_bgra(src@),
{
    let mut out: Vec<u8> = Vec::new();
    let mut j: usize = 0;
    let n = src.len();
    assert(src@.skip(0) =~= src@);
    while n - j >= 4
        invariant
            j <= n,
            n == src@.len(),
            out@ + rgb_from_bgra(src@.skip(j as int)) == rgb_from_bgra(src@),
        decreases n - j,
    {
        let ghost rest = src@.skip(j as int);
        assert(rest.skip(4) =~= src@.skip(j + 4));
        assert(rest[0] == src@[j as int] && rest[1] == src@[j + 1] && rest[2] == src@[j + 2]);
        let ghost before = out@;
        out.push(src[j + 2]);
        out.push(src[j + 1]);
        out.push(src[j]);
        assert(out@ =~= before + seq![src@[j + 2], src@[j + 1], src@[j as int]]);
        assert(out@ + rgb_from_bgra(src@.skip(j + 4)) =~= before + rgb_from_bgra(rest));
        j = j + 4;
    }
    assert(rgb_from_bgra(src@.skip(j as int)) =~= Seq::<u8>::empty());
    assert(out@ + Seq::<u8>::empty() =~= out@);
    out
}

/// Each complete pixel gives three bytes: red, green and blue in that order.
pub proof fn lemma_rgb_from_bgra(src: Seq<u8>)
    ensures
        rgb_from_bgra(src).len() == (src.len() / 4) * 3,
        forall|p: int| 0 <= p < src.len() / 4 ==> {
            &&& #[trigger] rgb_from_bgra(src)[3 * p] == src[4 * p + 2]
            &&& rgb_from_bgra(src)[3 * p + 1] == src[4 * p + 1]
            &&& rgb_from_bgra(src)[3 * p + 2] == src[4 * p]
        },
    decreases src.len(),
{
    if src.len() >= 4 {
        let rest = src.skip(4);
        lemma_rgb_from_bgra(rest);
        assert(rest.len() / 4 == src.len() / 4 - 1);
        let out = rgb_from_bgra(src);
        assert forall|p: int| 0 <= p < src.len() / 4 implies {
            &&& #[trigger] out[3 * p] == src[4 * p + 2]
            &&& out[3 * p + 1] == src[4 * p + 1]
            &&& out[3 * p + 2] == src[4 * p]
        } by {
            if p > 0 {
                let q = p - 1;
                assert(rgb_from_bgra(rest)[3 * q] == rest[4 * q + 2]);
                assert(rgb_from_bgra(rest)[3 * q + 1] == rest[4 * q + 1]);
                assert(rgb_from_bgra(rest)[3 * q + 2] == rest[4 * q]);
            }
        }
    }
}


#[verifier::external_type_specification]
#[verifier::external_body]
pub struct ExImageError(image::ImageError);

/// The JPEG that `image`'s baseline encoder writes for an RGB image of the
/// given size at the given quality.
pub uninterp spec fn jpeg_of_rgb(rgb: Seq<u8>, width: u32, height: u32, quality: u8) -> Seq<u8>;

/// `image::codecs::jpeg::JpegEncoder::new_with_quality(..).encode` of RGB8
/// pixels into a fresh buffer. The encoder panics unless the buffer holds
/// exactly `width * height` pixels, which `requires` rules out; writing to a
/// vector cannot fail, so it refuses only a side of 0 or above 65535. What it
/// writes is `jpeg_of_rgb` of its arguments.
#[verifier::external_body]
fn jpeg_encode(rgb: &[u8], width: u32, height: u32, quality: u8) -> (r: Result<Vec<u8>, image::ImageError>)
    requires
        rgb@.len() == width * height * 3,
    ensures
        r is Ok <==> (1 <= width <= 65535 && 1 <= height <= 65535),
        r matches Ok(jpeg) ==> jpeg@ == jpeg_of_rgb(rgb@, width, height, quality),
{
    let mut jpeg = Vec::new();
    image::codecs::jpeg::JpegEncoder::new_with_quality(&mut jpeg, quality)
        .encode(rgb, width, height, image::ExtendedColorType::Rgb8)?;
    Ok(jpeg)
}

/// Why a captured frame could not be encoded.
#[derive(Clone, Copy, Debug, PartialEq, Eq, Structural)]
pub enum EncodeError {
    /// The pixel buffer does not hold exactly `width * height` BGRA pixels.
    BufferSize,
    /// A side is 0 or larger than a JPEG can hold (65535).
    InvalidSize,
}

/// Encodes a captured BGRA frame as JPEG at the given quality.
pub fn encode_frame(bgra: &[u8], width: u32, height: u32, quality: u8) -> (r: Result<Vec<u8>, EncodeError>)
    ensures
        bgra@.len() != width * height * 4 <==> r == Err::<Vec<u8>, EncodeError>(EncodeError::BufferSize),
        bgra@.len() == width * height * 4 ==> (r is Ok <==> (1 <= width <= 65535 && 1 <= height <= 65535)),
        r is Err && r != Err::<Vec<u8>, EncodeError>(EncodeError::BufferSize)
            ==> r == Err::<Vec<u8>, EncodeError>(EncodeError::InvalidSize),
        r matches Ok(jpeg) ==> jpeg@ == jpeg_of_rgb(rgb_from_bgra(bgra@), width, height, quality),
{
    assert((width as u128) * (height as u128) <= 0xFFFF_FFFF_FFFF_FFFF_FFFF_FFFF) by (nonlinear_arith)
        requires
            width <= 0xFFFF_FFFF,
            height <= 0xFFFF_FFFF,
    ;
    if bgra.len() as u128 != (width as u128) * (height as u128) * 4 {
        return Err(EncodeError::BufferSize);
    }
    let rgb = bgra_to_rgb(bgra);
    proof {
        lemma_rgb_from_bgra(bgra@);
        assert(bgra@.len() / 4 == width * height);
    }
    match jpeg_encode(&rgb, width, height, quality) {
        Ok(jpeg) => Ok(jpeg),
        Err(_) => Err(EncodeError::InvalidSize),
    }
}

} // verus!
