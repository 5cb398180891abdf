//! A frame buffer of packed 32-bit pixels, readable and writable both per
//! pixel and per byte over the same cells.
//!
//! A pixel `0x00RRGGBB` is laid out little-endian, so its bytes in order are
//! blue, green, red and an unused byte.
use vstd::prelude::*;

verus! {

/// Byte `k` (0 is the lowest) of a packed pixel.
pub open spec fn byte_of(v: u32, k: int) -> u8 {
    if k == 0 {
        (v & 0xff) as u8
    } else if k == 1 {
        ((v >> 8u32) & 0xff) as u8
    } else if k == 2 {
        ((v >> 16u32) & 0xff) as u8
    } else {
        ((v >> 24u32) & 0xff) as u8
    }
}

/// The pixel whose bytes, lowest first, are `b0`, `b1`, `b2`, `b3`.
pub open spec fn pack(b0: u8, b1: u8, b2: u8, b3: u8) -> u32 {
    (b0 as u32) | ((b1 as u32) << 8u32) | ((b2 as u32) << 16u32) | ((b3 as u32) << 24u32)
}

/// `v` with its byte `k` replaced by `b`.
pub open spec fn with_byte(v: u32, k: int, b: u8) -> u32 {
    pack(
        if k == 0 { b } else { byte_of(v, 0) },
        if k == 1 { b } else { byte_of(v, 1) },
        if k == 2 { b } else { byte_of(v, 2) },
        if k == 3 { b } else { byte_of(v, 3) },
    )
}

/// The byte view of a pixel sequence: four bytes per pixel, in order.
pub open spec fn bytes_of(p: Seq<u32>) -> Seq<u8> {
    Seq::new(4 * p.len(), |i: int| byte_of(p[i / 4], i % 4))
}

/// The pixel view of a byte sequence: each group of four bytes packed.
pub open spec fn pixels_of(b: Seq<u8>) -> Seq<u32> {
    Seq::new(b.len() / 4, |i: int| pack(b[4 * i], b[4 * i + 1], b[4 * i + 2], b[4 * i + 3]))
}

/// The pixel of colour `(r, g, b)`.
pub open spec fn rgb_spec(r: u8, g: u8, b: u8) -> u32 {
    pack(b, g, r, 0)
}

proof fn lemma_pack_bytes(b0: u8, b1: u8, b2: u8, b3: u8)
    ensures
        byte_of(pack(b0, b1, b2, b3), 0) == b0,
        byte_of(pack(b0, b1, b2, b3), 1) == b1,
        byte_of(pack(b0, b1, b2, b3), 2) == b2,
        byte_of(pack(b0, b1, b2, b3), 3) == b3,
{
    let v = pack(b0, b1, b2, b3);
    assert(((((b0 as u32) | ((b1 as u32) << 8u32) | ((b2 as u32) << 16u32) | ((b3 as u32)
        << 24u32)) & 0xff) as u8) == b0) by (bit_vector);
    assert((((((b0 as u32) | ((b1 as u32) << 8u32) | ((b2 as u32) << 16u32) | ((b3 as u32)
        << 24u32)) >> 8u32) & 0xff) as u8) == b1) by (bit_vector);
    assert((((((b0 as u32) | ((b1 as u32) << 8u32) | ((b2 as u32) << 16u32) | ((b3 as u32)
        << 24u32)) >> 16u32) & 0xff) as u8) == b2) by (bit_vector);
    assert((((((b0 as u32) | ((b1 as u32) << 8u32) | ((b2 as u32) << 16u32) | ((b3 as u32)
        << 24u32)) >> 24u32) & 0xff) as u8) == b3) by (bit_vector);
}

proof fn lemma_unpack(v: u32)
    ensures
        pack(byte_of(v, 0), byte_of(v, 1), byte_of(v, 2), byte_of(v, 3)) == v,
{
    assert((((v & 0xff) as u8) as u32) | (((((v >> 8u32) & 0xff) as u8) as u32) << 8u32) | (
    ((((v >> 16u32) & 0xff) as u8) as u32) << 16u32) | (((((v >> 24u32) & 0xff) as u8) as u32)
        << 24u32) == v) by (bit_vector);
}

/// Replacing byte `k` of a pixel changes that byte to `b` and keeps the others.
proof fn lemma_with_byte(v: u32, k: int, b: u8)
    requires
        0 <= k < 4,
    ensures
        forall|j: int| 0 <= j < 4 ==> #[trigger] byte_of(with_byte(v, k, b), j) == if j == k {
            b
        } else {
            byte_of(v, j)
        },
{
    lemma_pack_bytes(
        if k == 0 { b } else { byte_of(v, 0) },
        if k == 1 { b } else { byte_of(v, 1) },
        if k == 2 { b } else { byte_of(v, 2) },
        if k == 3 { b } else { byte_of(v, 3) },
    );
}

/// Writing pixel `i` through the pixel view shows, through the byte view,
/// as exactly its four bytes at `4 * i`, in channel order, with every other
/// byte unchanged.
pub proof fn lemma_pixel_write_seen_as_bytes(p: Seq<u32>, i: int, v: u32)
    requires
        0 <= i < p.len(),
    ensures
        bytes_of(p.update(i, v)) == bytes_of(p).update(4 * i, byte_of(v, 0)).update(
            4 * i + 1,
            byte_of(v, 1),
        ).update(4 * i + 2, byte_of(v, 2)).update(4 * i + 3, byte_of(v, 3)),
{
    assert(bytes_of(p.update(i, v)) =~= bytes_of(p).update(4 * i, byte_of(v, 0)).update(
        4 * i + 1,
        byte_of(v, 1),
    ).update(4 * i + 2, byte_of(v, 2)).update(4 * i + 3, byte_of(v, 3)));
}

/// Writing byte `i` through the byte view shows, through the pixel view, as
/// pixel `i / 4` with only its byte `i % 4` replaced; read back through the
/// byte view, exactly byte `i` has changed.
pub proof fn lemma_byte_write_seen_as_pixel(p: Seq<u32>, i: int, b: u8)
    requires
        0 <= i < 4 * p.len(),
    ensures
        pixels_of(bytes_of(p).update(i, b)) == p.update(i / 4, with_byte(p[i / 4], i % 4, b)),
        bytes_of(p.update(i / 4, with_byte(p[i / 4], i % 4, b))) == bytes_of(p).update(i, b),
{
    lemma_with_byte(p[i / 4], i % 4, b);
    let q = p.update(i / 4, with_byte(p[i / 4], i % 4, b));
    assert(bytes_of(q) =~= bytes_of(p).update(i, b));
    lemma_views_round_trip(q);
}

/// Reading the byte view back as pixels gives the pixels unchanged, and a
/// whole number of pixels' bytes read as pixels gives the bytes unchanged.
pub proof fn lemma_views_round_trip(p: Seq<u32>)
    ensures
        pixels_of(bytes_of(p)) == p,
        forall|b: Seq<u8>| b.len() % 4 == 0 ==> #[trigger] bytes_of(pixels_of(b)) == b,
{
    lemma_pixels_of_bytes(p);
    assert forall|b: Seq<u8>| b.len() % 4 == 0 implies #[trigger] bytes_of(pixels_of(b)) == b by {
        lemma_bytes_of_pixels(b);
    }
}

proof fn lemma_pixels_of_bytes(p: Seq<u32>)
    ensures
        pixels_of(bytes_of(p)) == p,
{
    let bs = bytes_of(p);
    assert forall|i: int| 0 <= i < p.len() implies #[trigger] pixels_of(bs)[i] == p[i] by {
        lemma_unpack(p[i]);
        assert(bs[4 * i] == byte_of(p[i], 0));
        assert(bs[4 * i + 1] == byte_of(p[i], 1));
        assert(bs[4 * i + 2] == byte_of(p[i], 2));
        assert(bs[4 * i + 3] == byte_of(p[i], 3));
    }
    assert(pixels_of(bs) =~= p);
}

proof fn lemma_bytes_of_pixels(b: Seq<u8>)
    requires
        b.len() % 4 == 0,
    ensures
        bytes_of(pixels_of(b)) == b,
{
    assert forall|i: int| 0 <= i < b.len() implies bytes_of(pixels_of(b))[i] == b[i] by {
        let j = i / 4;
        lemma_pack_bytes(b[4 * j], b[4 * j + 1], b[4 * j + 2], b[4 * j + 3]);
    }
    assert(bytes_of(pixels_of(b)) =~= b);
}

/// Whether pixel `i` of a row-by-row image of the given width lies in
/// columns `left..right` and rows `top..bottom`.
pub open spec fn in_rect(i: int, width: nat, left: int, top: int, right: int, bottom: int) -> bool {
    &&& left <= i % (width as int) < right
    &&& top <= i / (width as int) < bottom
}

/// The pixel of colour `(r, g, b)`: bytes blue, green, red, then zero.
pub fn rgb(r: u8, g: u8, b: u8) -> (v: u32)
    ensures
        v == rgb_spec(r, g, b),
        byte_of(v, 0) == b,
        byte_of(v, 1) == g,
        byte_of(v, 2) == r,
        byte_of(v, 3) == 0,
{
    proof {
        lemma_pack_bytes(b, g, r, 0);
    }
    (b as u32) | ((g as u32) << 8u32) | ((r as u32) << 16u32) | ((0u8 as u32) << 24u32)
}

/// A `width` by `height` frame of packed pixels, row by row.
pub struct PixelSurface {
    pixels: Vec<u32>,
    width: usize,
    height: usize,
}

impl View for PixelSurface {
    type V = Seq<u32>;

    closed spec fn view(&self) -> Seq<u32> {
        self.pixels@
    }
}

impl PixelSurface {
    pub closed spec fn spec_width(&self) -> nat {
        self.width as nat
    }

    pub closed spec fn spec_height(&self) -> nat {
        self.height as nat
    }

    /// One cell per pixel, and the byte view's length fits in `usize`.
    pub closed spec fn wf(&self) -> bool {
        &&& self.pixels@.len() == self.width * self.height
        &&& 4 * self.pixels@.len() <= usize::MAX
    }

    /// The surface as bytes, four per pixel.
    pub open spec fn byte_view(&self) -> Seq<u8> {
        bytes_of(self@)
    }

    /// A `width` by `height` surface with every pixel zero (black).
    pub fn new(width: usize, height: usize) -> (r: Self)
        requires
            4 * width * height <= usize::MAX,
        ensures
            r.wf(),
            r.spec_width() == width,
            r.spec_height() == height,
            r@ == Seq::new((width * height) as nat, |i: int| 0u32),
    {
        assert(width * height <= 4 * width * height && 4 * (width * height) == 4 * width * height)
            by (nonlinear_arith);
        let n = width * height;
        let mut pixels: Vec<u32> = Vec::with_capacity(n);
        let mut i: usize = 0;
        while i < n
            invariant
                i <= n,
                pixels@ =~= Seq::new(i as nat, |k: int| 0u32),
            decreases n - i,
        {
            pixels.push(0);
            i = i + 1;
        }
        PixelSurface { pixels, width, height }
    }

    pub fn width(&self) -> (r: usize)
        ensures
            r == self.spec_width(),
    {
        self.width
    }

    pub fn height(&self) -> (r: usize)
        ensures
            r == self.spec_height(),
    {
        self.height
    }

    /// The number of pixels, `width * height`.
    pub fn len(&self) -> (r: usize)
        requires
            self.wf(),
        ensures
            r == self@.len(),
            r == self.spec_width() * self.spec_height(),
    {
        self.pixels.len()
    }

    /// The pixel view, for a presenter that reads packed pixels.
    pub fn pixels(&self) -> (r: &[u32])
        ensures
            r@ == self@,
    {
        self.pixels.as_slice()
    }

    /// Pixel `i`, counted row by row from the top left.
    pub fn pixel(&self, i: usize) -> (r: u32)
        requires
            i < self@.len(),
        ensures
            r == self@[i as int],
    {
        self.pixels[i]
    }

    pub fn set_pixel(&mut self, i: usize, v: u32)
        requires
            old(self).wf(),
            i < old(self)@.len(),
        ensures
            final(self).wf(),
            final(self).spec_width() == old(self).spec_width(),
            final(self).spec_height() == old(self).spec_height(),
            final(self)@ == old(self)@.update(i as int, v),
    {
        self.pixels.set(i, v);
    }

    /// Byte `i` of the byte view.
    pub fn byte(&self, i: usize) -> (r: u8)
        requires
            i < self.byte_view().len(),
        ensures
            r == self.byte_view()[i as int],
    {
        let v = self.pixels[i / 4];
        let k = i % 4;
        let shift: u32 = 8 * (k as u32);
        assert(byte_of(v, 0) == ((v >> 0u32) & 0xff) as u8) by (bit_vector);
        ((v >> shift) & 0xff) as u8
    }

    /// Writes byte `i` of the byte view: pixel `i / 4` changes in that byte only.
    pub fn set_byte(&mut self, i: usize, b: u8)
        requires
            old(self).wf(),
            i < old(self).byte_view().len(),
        ensures
            final(self).wf(),
            final(self).spec_width() == old(self).spec_width(),
            final(self).spec_height() == old(self).spec_height(),
            final(self).byte_view() == old(self).byte_view().update(i as int, b),
            final(self)@ == old(self)@.update(
                i as int / 4,
                with_byte(old(self)@[i as int / 4], i as int % 4, b),
            ),
    {
        proof {
            lemma_byte_write_seen_as_pixel(self@, i as int, b);
        }
        let v = self.pixels[i / 4];
        let k = i % 4;
        let shift: u32 = 8 * (k as u32);
        let mask: u32 = !(0xffu32 << shift);
        let w = (v & mask) | ((b as u32) << shift);
        proof {
            lemma_set_byte_bits(v, k as u32, b);
        }
        self.pixels.set(i / 4, w);
    }

    /// Sets every pixel to `v`.
    pub fn fill(&mut self, v: u32)
        requires
            old(self).wf(),
        ensures
            final(self).wf(),
            final(self).spec_width() == old(self).spec_width(),
            final(self).spec_height() == old(self).spec_height(),
            final(self)@ == Seq::new(old(self)@.len(), |i: int| v),
    {
        let n = self.pixels.len();
        let mut i: usize = 0;
        while i < n
            invariant
                i <= n,
                n == self.pixels@.len(),
                self.width == old(self).width,
                self.height == old(self).height,
                self.wf(),
                forall|k: int| 0 <= k < i ==> self.pixels@[k] == v,
            decreases n - i,
        {
            self.pixels.set(i, v);
            i = i + 1;
        }
        assert(self@ =~= Seq::new(old(self)@.len(), |i: int| v));
    }

    /// Sets to `v` every pixel in columns `left..right` and rows
    /// `top..bottom`; the others keep their value.
    pub fn fill_rect(&mut self, left: usize, top: usize, right: usize, bottom: usize, v: u32)
        requires
            old(self).wf(),
        ensures
            final(self).wf(),
            final(self).spec_width() == old(self).spec_width(),
            final(self).spec_height() == old(self).spec_height(),
            final(self)@ == Seq::new(
                old(self)@.len(),
                |i: int|
                    if in_rect(i, old(self).spec_width(), left as int, top as int, right as int, bottom as int) {
                        v
                    } else {
                        old(self)@[i]
                    },
            ),
    {
        let n = self.pixels.len();
        let w = self.width;
        let mut i: usize = 0;
        while i < n
            invariant
                i <= n,
                n == self.pixels@.len(),
                n == old(self)@.len(),
                w == self.width,
                self.width == old(self).width,
                self.height == old(self).height,
                self.wf(),
                forall|k: int| 0 <= k < n ==> #[trigger] self.pixels@[k] == if k < i && in_rect(k, w as nat, left as int, top as int, right as int, bottom as int) {
                    v
                } else {
                    old(self)@[k]
                },
            decreases n - i,
        {
            proof {
                assert(w > 0) by (nonlinear_arith)
                    requires n == w * self.height, i < n;
            }
            let x = i % w;
            let y = i / w;
            if left <= x && x < right && top <= y && y < bottom {
                self.pixels.set(i, v);
            }
            i = i + 1;
        }
        assert(self@ =~= Seq::new(
            old(self)@.len(),
            |i: int|
                if in_rect(i, old(self).spec_width(), left as int, top as int, right as int, bottom as int) {
                    v
                } else {
                    old(self)@[i]
                },
        ));
    }

    /// A copy of the byte view.
    pub fn to_bytes(&self) -> (r: Vec<u8>)
        requires
            self.wf(),
        ensures
            r@ == self.byte_view(),
    {
        let n = self.pixels.len();
        let mut r: Vec<u8> = Vec::with_capacity(4 * n);
        let mut i: usize = 0;
        while i < n
            invariant
                i <= n,
                n == self@.len(),
                4 * n <= usize::MAX,
                r@ =~= bytes_of(self@).subrange(0, 4 * i as int),
            decreases n - i,
        {
            let v = self.pixels[i];
            r.push((v & 0xff) as u8);
            r.push(((v >> 8u32) & 0xff) as u8);
            r.push(((v >> 16u32) & 0xff) as u8);
            r.push(((v >> 24u32) & 0xff) as u8);
            i = i + 1;
        }
        r
    }

    /// Overwrites every pixel from a byte view of the same size.
    pub fn load_bytes(&mut self, bytes: &[u8])
        requires
            old(self).wf(),
            bytes@.len() == old(self).byte_view().len(),
        ensures
            final(self).wf(),
            final(self).spec_width() == old(self).spec_width(),
            final(self).spec_height() == old(self).spec_height(),
            final(self)@ == pixels_of(bytes@),
            final(self).byte_view() == bytes@,
    {
        let n = self.pixels.len();
        let mut i: usize = 0;
        while i < n
            invariant
                i <= n,
                n == self.pixels@.len(),
                bytes@.len() == 4 * n,
                self.width == old(self).width,
                self.height == old(self).height,
                self.wf(),
                forall|k: int| 0 <= k < i ==> self.pixels@[k] == #[trigger] pixels_of(bytes@)[k],
            decreases n - i,
        {
            let j = 4 * i;
            let v = (bytes[j] as u32) | ((bytes[j + 1] as u32) << 8u32) | ((bytes[j + 2] as u32)
                << 16u32) | ((bytes[j + 3] as u32) << 24u32);
            self.pixels.set(i, v);
            i = i + 1;
        }
        assert(self@ =~= pixels_of(bytes@));
        proof {
            lemma_views_round_trip(self@);
        }
    }
}

proof fn lemma_set_byte_bits(v: u32, k: u32, b: u8)
    requires
        k < 4,
    ensures
        (v & !(0xffu32 << (8 * k))) | ((b as u32) << (8 * k)) == with_byte(v, k as int, b),
{
    lemma_unpack(v);
    if k == 0 {
        assert((v & !(0xffu32 << 0u32)) | ((b as u32) << 0u32) == (b as u32) | (((((v >> 8u32)
            & 0xff) as u8) as u32) << 8u32) | (((((v >> 16u32) & 0xff) as u8) as u32) << 16u32) | (
        ((((v >> 24u32) & 0xff) as u8) as u32) << 24u32)) by (bit_vector);
    } else if k == 1 {
        assert((v & !(0xffu32 << 8u32)) | ((b as u32) << 8u32) == (((v & 0xff) as u8) as u32) | ((
        b as u32) << 8u32) | (((((v >> 16u32) & 0xff) as u8) as u32) << 16u32) | (((((v
            >> 24u32) & 0xff) as u8) as u32) << 24u32)) by (bit_vector);
    } else if k == 2 {
        assert((v & !(0xffu32 << 16u32)) | ((b as u32) << 16u32) == (((v & 0xff) as u8) as u32)
            | (((((v >> 8u32) & 0xff) as u8) as u32) << 8u32) | ((b as u32) << 16u32) | (((((v
            >> 24u32) & 0xff) as u8) as u32) << 24u32)) by (bit_vector);
    } else {
        assert((v & !(0xffu32 << 24u32)) | ((b as u32) << 24u32) == (((v & 0xff) as u8) as u32)
            | (((((v >> 8u32) & 0xff) as u8) as u32) << 8u32) | (((((v >> 16u32) & 0xff) as u8)
            as u32) << 16u32) | ((b as u32) << 24u32)) by (bit_vector);
    }
}

} // verus!
