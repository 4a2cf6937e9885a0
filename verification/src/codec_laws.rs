//! What holds of the byte format: writing a grid and reading it back.

use vstd::prelude::*;
use crate::codec::{decoded, encoded, header, opaque, pixel_bytes, plain_pixels, triple};
use crate::tga::{TgaImage, TgaPixel};

verus! {

/// Reading back what was written gives a grid of the same size whose pixels
/// have the same red, green and blue; alpha, which is not written, reads
/// back as opaque.
pub proof fn lemma_round_trip(img: TgaImage)
    requires
        img.wf(),
    ensures
        decoded(encoded(img)) == Ok::<(int, int, Seq<TgaPixel>), crate::codec::TgaError>(
            (img.width as int, img.height as int, opaque(img@)),
        ),
{
    let w = img.width as int;
    let h = img.height as int;
    let n = img@.len() as int;
    let head = header(w, h);
    let body = pixel_bytes(img@);
    let data = encoded(img);
    assert(head.len() == 18);
    assert(data.len() == 18 + 3 * n);
    assert(forall|i: int| 0 <= i < 18 ==> data[i] == head[i]);
    assert(forall|i: int| 0 <= i < 3 * n ==> data[18 + i] == body[i]);
    assert(data[0] == 0 && data[1] == 0 && data[2] == crate::codec::PLAIN);
    assert(data[12] + 256 * data[13] == w);
    assert(data[14] + 256 * data[15] == h);
    assert(plain_pixels(data, 18, n as nat) =~= opaque(img@)) by {
        assert forall|i: int| 0 <= i < n implies plain_pixels(data, 18, n as nat)[i] == opaque(
            img@,
        )[i] by {
            assert(data[18 + (3 * i)] == body[3 * i]);
            assert(data[18 + (3 * i + 1)] == body[3 * i + 1]);
            assert(data[18 + (3 * i + 2)] == body[3 * i + 2]);
            assert(triple(data, 18 + 3 * i) == TgaPixel { a: 255, ..img@[i] });
        }
    }
}

} // verus!
