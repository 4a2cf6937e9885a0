//! The byte format of a pixel grid: an eighteen-byte header, then the
//! pixels as blue, green, red, either plain or in run-length packets.

use vstd::prelude::*;
use crate::tga::{TgaImage, TgaPixel};

verus! {

/// Why a sequence of bytes is not a grid.
#[derive(Clone, Copy, Debug, PartialEq, Eq, Structural)]
pub enum TgaError {
    /// The bytes end before the header, the identification field or the
    /// pixel data do.
    Truncated,
    /// The header announces a color map.
    ColorMapped,
    /// The width or the height is zero.
    Empty,
    /// The data type is neither plain true color nor run-length true color.
    Unsupported,
}

/// The length of the header.
pub const HEADER_LEN: usize = 18;

/// The data type of plain pixel data.
pub const PLAIN: u8 = 2;

/// The data type of run-length-encoded pixel data.
pub const PACKED: u8 = 10;

/// The header of a plain grid of the given size, with twenty-four bits to a pixel.
pub open spec fn header(width: int, height: int) -> Seq<u8> {
    seq![
        0u8,
        0u8,
        PLAIN,
        0u8,
        0u8,
        0u8,
        0u8,
        0u8,
        0u8,
        0u8,
        0u8,
        0u8,
        (width % 256) as u8,
        (width / 256) as u8,
        (height % 256) as u8,
        (height / 256) as u8,
        24u8,
        0u8,
    ]
}

/// The pixels as bytes: blue, green and red of each pixel in turn.
pub open spec fn pixel_bytes(pixels: Seq<TgaPixel>) -> Seq<u8> {
    Seq::new(
        3 * pixels.len(),
        |i: int|
            if i % 3 == 0 {
                pixels[i / 3].b
            } else if i % 3 == 1 {
                pixels[i / 3].g
            } else {
                pixels[i / 3].r
            },
    )
}

/// The bytes that stand for a grid: its header and its pixels, plain.
pub open spec fn encoded(img: TgaImage) -> Seq<u8> {
    header(img.width as int, img.height as int) + pixel_bytes(img@)
}

/// The opaque pixel whose blue, green and red are the three bytes at `at`.
pub open spec fn triple(data: Seq<u8>, at: int) -> TgaPixel {
    TgaPixel { r: data[at + 2], g: data[at + 1], b: data[at], a: 255 }
}

/// `n` pixels read from consecutive triples, the first at `start`.
pub open spec fn plain_pixels(data: Seq<u8>, start: int, n: nat) -> Seq<TgaPixel> {
    Seq::new(n, |i: int| triple(data, start + 3 * i))
}

/// The smaller of two numbers.
pub open spec fn min(a: int, b: int) -> int {
    if a <= b {
        a
    } else {
        b
    }
}

/// The first `need` pixels of the packets that start at `pos`, or `None`
/// where the bytes end inside a packet or before `need` pixels are there.
///
/// The top bit of a packet's first byte tells a run from a literal packet,
/// its low seven bits and one more are the packet's count. A run is followed
/// by one triple, which it repeats; a literal packet by as many triples as
/// it counts. Pixels beyond `need` in the last packet are dropped.
pub open spec fn packets(data: Seq<u8>, pos: int, need: int) -> Option<Seq<TgaPixel>>
    decreases need,
{
    if need <= 0 {
        Some(Seq::empty())
    } else if pos < 0 || pos >= data.len() {
        None
    } else {
        let count = (data[pos] as int) % 128 + 1;
        let take = min(count, need) as nat;
        if data[pos] >= 128 {
            if pos + 4 > data.len() {
                None
            } else {
                match packets(data, pos + 4, need - take) {
                    Some(rest) => Some(Seq::new(take, |i: int| triple(data, pos + 1)) + rest),
                    None => None,
                }
            }
        } else {
            if pos + 1 + 3 * count > data.len() {
                None
            } else {
                match packets(data, pos + 1 + 3 * count, need - take) {
                    Some(rest) => Some(plain_pixels(data, pos + 1, take) + rest),
                    None => None,
                }
            }
        }
    }
}

/// What a sequence of bytes stands for: the width, the height and the
/// pixels of a grid, or the reason why it stands for none.
pub open spec fn decoded(data: Seq<u8>) -> Result<(int, int, Seq<TgaPixel>), TgaError> {
    if data.len() < HEADER_LEN {
        Err(TgaError::Truncated)
    } else if data[1] != 0 {
        Err(TgaError::ColorMapped)
    } else if data.len() < HEADER_LEN + data[0] {
        Err(TgaError::Truncated)
    } else {
        let start = HEADER_LEN + data[0];
        let width = data[12] + 256 * data[13];
        let height = data[14] + 256 * data[15];
        if width == 0 || height == 0 {
            Err(TgaError::Empty)
        } else if data[2] == PLAIN {
            if data.len() < start + 3 * (width * height) {
                Err(TgaError::Truncated)
            } else {
                Ok((width, height, plain_pixels(data, start, (width * height) as nat)))
            }
        } else if data[2] == PACKED {
            match packets(data, start, width * height) {
                Some(pixels) => Ok((width, height, pixels)),
                None => Err(TgaError::Truncated),
            }
        } else {
            Err(TgaError::Unsupported)
        }
    }
}

/// Every pixel made opaque.
pub open spec fn opaque(pixels: Seq<TgaPixel>) -> Seq<TgaPixel> {
    Seq::new(pixels.len(), |i: int| TgaPixel { a: 255, ..pixels[i] })
}

/// Reads the opaque pixel at `at`.
fn read_triple(data: &[u8], at: usize) -> (p: TgaPixel)
    requires
        at + 2 < data.len(),
    ensures
        p == triple(data@, at as int),
{
    TgaPixel { r: data[at + 2], g: data[at + 1], b: data[at], a: 255 }
}

impl TgaImage {
    /// The bytes that stand for this grid: the header, then every pixel as
    /// blue, green, red. Alpha is not written.
    pub fn to_bytes(&self) -> (bytes: Vec<u8>)
        requires
            self.wf(),
        ensures
            bytes@ == encoded(*self),
    {
        let mut bytes: Vec<u8> = Vec::new();
        bytes.push(0);
        bytes.push(0);
        bytes.push(PLAIN);
        bytes.push(0);
        bytes.push(0);
        bytes.push(0);
        bytes.push(0);
        bytes.push(0);
        bytes.push(0);
        bytes.push(0);
        bytes.push(0);
        bytes.push(0);
        bytes.push((self.width % 256) as u8);
        bytes.push((self.width / 256) as u8);
        bytes.push((self.height % 256) as u8);
        bytes.push((self.height / 256) as u8);
        bytes.push(24);
        bytes.push(0);
        assert(bytes@ =~= header(self.width as int, self.height as int));
        let ghost head: Seq<u8> = bytes@;
        let n: usize = self.pixels.len();
        let mut i: usize = 0;
        while i < n
            invariant
                i <= n,
                n == self@.len(),
                bytes@ == head + pixel_bytes(self@.take(i as int)),
            decreases n - i,
        {
            let p: TgaPixel = self.pixels[i];
            bytes.push(p.b);
            bytes.push(p.g);
            bytes.push(p.r);
            i += 1;
            assert(bytes@ =~= head + pixel_bytes(self@.take(i as int)));
        }
        assert(self@.take(n as int) =~= self@);
        bytes
    }

    /// The grid that `data` stands for.
    ///
    /// Fails where the bytes end too early, announce a color map, a size of
    /// zero or a data type other than plain or run-length true color. The
    /// pixel depth and the descriptor byte of the header are not looked at,
    /// and bytes after the last pixel are ignored. Every pixel read is opaque.
    pub fn from_bytes(data: &[u8]) -> (r: Result<TgaImage, TgaError>)
        ensures
            match decoded(data@) {
                Ok((width, height, pixels)) => r is Ok && r->Ok_0.wf() && r->Ok_0.width == width
                    && r->Ok_0.height == height && r->Ok_0@ == pixels,
                Err(e) => r == Err::<TgaImage, TgaError>(e),
            },
    {
        let len: usize = data.len();
        if len < HEADER_LEN {
            return Err(TgaError::Truncated);
        }
        if data[1] != 0 {
            return Err(TgaError::ColorMapped);
        }
        let skip: usize = data[0] as usize;
        if len - HEADER_LEN < skip {
            return Err(TgaError::Truncated);
        }
        let start: usize = HEADER_LEN + skip;
        let width: i32 = data[12] as i32 + 256 * (data[13] as i32);
        let height: i32 = data[14] as i32 + 256 * (data[15] as i32);
        if width == 0 || height == 0 {
            return Err(TgaError::Empty);
        }
        assert(0 < width * height <= 65535 * 65535) by (nonlinear_arith)
            requires
                0 < width <= 65535,
                0 < height <= 65535,
        ;
        let n: u64 = (width as u64) * (height as u64);
        let kind: u8 = data[2];
        if kind == PLAIN {
            if ((len - start) as u64) < 3 * n {
                return Err(TgaError::Truncated);
            }
            let pixels: Vec<TgaPixel> = read_plain(data, start, n as usize);
            Ok(TgaImage { width, height, pixels })
        } else if kind == PACKED {
            match read_packets(data, start, n) {
                Some(pixels) => Ok(TgaImage { width, height, pixels }),
                None => Err(TgaError::Truncated),
            }
        } else {
            Err(TgaError::Unsupported)
        }
    }
}

/// Reads `n` pixels from consecutive triples, the first at `start`.
fn read_plain(data: &[u8], start: usize, n: usize) -> (pixels: Vec<TgaPixel>)
    requires
        start + 3 * n <= data.len(),
    ensures
        pixels@ == plain_pixels(data@, start as int, n as nat),
{
    let mut pixels: Vec<TgaPixel> = Vec::new();
    let mut i: usize = 0;
    while i < n
        invariant
            i <= n,
            start + 3 * n <= data.len(),
            pixels@ == plain_pixels(data@, start as int, i as nat),
        decreases n - i,
    {
        pixels.push(read_triple(data, start + 3 * i));
        i += 1;
        assert(pixels@ =~= plain_pixels(data@, start as int, i as nat));
    }
    pixels
}

/// Reads the first `need` pixels of the packets that start at `start`.
fn read_packets(data: &[u8], start: usize, need: u64) -> (r: Option<Vec<TgaPixel>>)
    requires
        start <= data.len(),
    ensures
        match packets(data@, start as int, need as int) {
            Some(pixels) => r is Some && r->Some_0@ == pixels && pixels.len() == need,
            None => r is None,
        },
{
    let len: usize = data.len();
    let mut pixels: Vec<TgaPixel> = Vec::new();
    let mut pos: usize = start;
    let mut have: u64 = 0;
    while have < need
        invariant
            have <= need,
            pos <= len,
            len == data.len(),
            pixels@.len() == have,
            packets(data@, start as int, need as int) == match packets(
                data@,
                pos as int,
                need - have,
            ) {
                Some(rest) => Some(pixels@ + rest),
                None => None,
            },
        decreases need - have,
    {
        if pos >= len {
            return None;
        }
        let packet: u8 = data[pos];
        let count: u64 = (packet % 128) as u64 + 1;
        let take: u64 = if count <= need - have {
            count
        } else {
            need - have
        };
        let ghost before: Seq<TgaPixel> = pixels@;
        if packet >= 128 {
            if len - pos < 4 {
                return None;
            }
            let p: TgaPixel = read_triple(data, pos + 1);
            let mut i: u64 = 0;
            while i < take
                invariant
                    i <= take,
                    pixels@ == before + Seq::new(i as nat, |j: int| p),
                decreases take - i,
            {
                pixels.push(p);
                i += 1;
                assert(pixels@ =~= before + Seq::new(i as nat, |j: int| p));
            }
            proof {
                let fresh = Seq::new(take as nat, |j: int| triple(data@, pos + 1));
                assert(fresh =~= Seq::new(take as nat, |j: int| p));
                match packets(data@, pos + 4, need - have - take) {
                    Some(rest) => {
                        assert(before + (fresh + rest) =~= pixels@ + rest);
                    },
                    None => {},
                }
            }
            pos = pos + 4;
        } else {
            if ((len - pos - 1) as u64) < 3 * count {
                return None;
            }
            let mut i: u64 = 0;
            while i < take
                invariant
                    i <= take <= count <= 128,
                    pos + 1 + 3 * count <= len,
                    len == data.len(),
                    pixels@ == before + plain_pixels(data@, pos + 1, i as nat),
                decreases take - i,
            {
                pixels.push(read_triple(data, pos + 1 + 3 * (i as usize)));
                i += 1;
                assert(pixels@ =~= before + plain_pixels(data@, pos + 1, i as nat));
            }
            proof {
                let fresh = plain_pixels(data@, pos + 1, take as nat);
                match packets(data@, pos + 1 + 3 * count, need - have - take) {
                    Some(rest) => {
                        assert(before + (fresh + rest) =~= pixels@ + rest);
                    },
                    None => {},
                }
            }
            pos = pos + 1 + 3 * (count as usize);
        }
        have = have + take;
    }
    proof {
        assert(pixels@ + Seq::<TgaPixel>::empty() =~= pixels@);
    }
    Some(pixels)
}

} // verus!
