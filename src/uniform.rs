//! The per-frame parameter block that the shader reads, and its byte
//! layout. Each field is held as the bit patterns of its single-precision
//! components, so the bytes handed to the GPU are exactly determined.
use vstd::prelude::*;

verus! {

/// The bit pattern of the single-precision number one: the `w` component
/// of the eye position.
pub const ONE_BITS: u32 = 0x3f80_0000;

/// The size of the block in bytes: sixteen view words, four eye words and
/// two camera words.
pub const BLOCK_BYTES: usize = 88;

/// The parameter block, in the order the shader reads it: the view matrix
/// (sixteen words), the eye position with `w` one (four words), then the
/// aspect ratio and the field of view.
#[derive(Clone, Copy, Debug, PartialEq, Eq)]
pub struct UniformData {
    pub view: [u32; 16],
    pub eye: [u32; 4],
    pub camera: [u32; 2],
}

/// The four bytes of `w`, least significant first.
pub open spec fn le_bytes(w: u32) -> Seq<u8> {
    seq![
        (w & 0xff) as u8,
        ((w >> 8u32) & 0xff) as u8,
        ((w >> 16u32) & 0xff) as u8,
        ((w >> 24u32) & 0xff) as u8,
    ]
}

/// The words of `ws`, each as its four bytes, in order.
pub open spec fn encode(ws: Seq<u32>) -> Seq<u8>
    decreases ws.len(),
{
    if ws.len() == 0 {
        Seq::empty()
    } else {
        encode(ws.drop_last()) + le_bytes(ws.last())
    }
}

impl UniformData {
    /// The words of the block, in layout order.
    pub open spec fn words(self) -> Seq<u32> {
        self.view@ + self.eye@ + self.camera@
    }

    /// The bytes of the block.
    pub open spec fn bytes(self) -> Seq<u8> {
        encode(self.words())
    }

    /// This block is the one taken from a camera whose view matrix is
    /// `view`, whose eye is `eye`, and whose aspect ratio and field of view
    /// are `aspect` and `fov`.
    pub open spec fn is_capture_of(self, view: [u32; 16], eye: [u32; 3], aspect: u32, fov: u32) -> bool {
        &&& self.view == view
        &&& self.eye@ == eye@.push(ONE_BITS)
        &&& self.camera@ == seq![aspect, fov]
    }

    /// The block for a camera with view matrix `view`, eye `eye`, aspect
    /// ratio `aspect` and field of view `fov`; the matrix is kept word for
    /// word.
    pub fn capture(view: [u32; 16], eye: [u32; 3], aspect: u32, fov: u32) -> (r: UniformData)
        ensures
            r.is_capture_of(view, eye, aspect, fov),
    {
        let r = UniformData { view, eye: [eye[0], eye[1], eye[2], ONE_BITS], camera: [aspect, fov] };
        assert(r.eye@ =~= eye@.push(ONE_BITS));
        assert(r.camera@ =~= seq![aspect, fov]);
        r
    }

    /// Recomputes the whole block from the camera's current values.
    pub fn update(&mut self, view: [u32; 16], eye: [u32; 3], aspect: u32, fov: u32)
        ensures
            final(self).is_capture_of(view, eye, aspect, fov),
    {
        *self = UniformData::capture(view, eye, aspect, fov);
    }

    /// The words of the block, in layout order.
    pub fn to_words(&self) -> (r: Vec<u32>)
        ensures
            r@ == self.words(),
    {
        let mut r: Vec<u32> = Vec::new();
        let mut i: usize = 0;
        while i < 16
            invariant
                i <= 16,
                r@ == self.view@.take(i as int),
            decreases 16 - i,
        {
            r.push(self.view[i]);
            assert(self.view@.take(i + 1) =~= self.view@.take(i as int).push(self.view@[i as int]));
            i = i + 1;
        }
        assert(self.view@.take(16) =~= self.view@);
        let mut i: usize = 0;
        while i < 4
            invariant
                i <= 4,
                r@ == self.view@ + self.eye@.take(i as int),
            decreases 4 - i,
        {
            r.push(self.eye[i]);
            assert(self.eye@.take(i + 1) =~= self.eye@.take(i as int).push(self.eye@[i as int]));
            i = i + 1;
        }
        assert(self.eye@.take(4) =~= self.eye@);
        r.push(self.camera[0]);
        r.push(self.camera[1]);
        assert(r@ =~= self.words());
        r
    }

    /// The bytes to upload: each word of the block, in layout order, least
    /// significant byte first, with no padding.
    pub fn raw_bytes(&self) -> (r: Vec<u8>)
        ensures
            r@ == self.bytes(),
            r@.len() == BLOCK_BYTES,
    {
        let ws = self.to_words();
        let mut r: Vec<u8> = Vec::new();
        let mut i: usize = 0;
        while i < ws.len()
            invariant
                i <= ws@.len(),
                ws@ == self.words(),
                r@ == encode(ws@.take(i as int)),
            decreases ws@.len() - i,
        {
            let w = ws[i];
            r.push((w & 0xff) as u8);
            r.push(((w >> 8u32) & 0xff) as u8);
            r.push(((w >> 16u32) & 0xff) as u8);
            r.push(((w >> 24u32) & 0xff) as u8);
            assert(ws@.take(i + 1).drop_last() =~= ws@.take(i as int));
            assert(r@ =~= encode(ws@.take(i as int)) + le_bytes(w));
            i = i + 1;
        }
        proof {
            assert(ws@.take(ws@.len() as int) =~= ws@);
            lemma_encode_len(ws@);
        }
        r
    }
}

/// Each word becomes four bytes.
pub proof fn lemma_encode_len(ws: Seq<u32>)
    ensures
        encode(ws).len() == 4 * ws.len(),
    decreases ws.len(),
{
    if ws.len() > 0 {
        lemma_encode_len(ws.drop_last());
    }
}

/// Byte `b` of word `j` stands at offset `4 * j + b`.
pub proof fn lemma_encode_index(ws: Seq<u32>, j: int, b: int)
    requires
        0 <= j < ws.len(),
        0 <= b < 4,
    ensures
        encode(ws).len() == 4 * ws.len(),
        encode(ws)[4 * j + b] == le_bytes(ws[j])[b],
    decreases ws.len(),
{
    lemma_encode_len(ws);
    let rest = ws.drop_last();
    lemma_encode_len(rest);
    if j < ws.len() - 1 {
        lemma_encode_index(rest, j, b);
        assert(rest[j] == ws[j]);
    }
}

/// The four bytes of a word give the word back.
pub proof fn lemma_le_bytes_injective(x: u32, y: u32)
    requires
        le_bytes(x) == le_bytes(y),
    ensures
        x == y,
{
    assert(le_bytes(x)[0] == le_bytes(y)[0]);
    assert(le_bytes(x)[1] == le_bytes(y)[1]);
    assert(le_bytes(x)[2] == le_bytes(y)[2]);
    assert(le_bytes(x)[3] == le_bytes(y)[3]);
    assert((x & 0xff) < 256 && ((x >> 8u32) & 0xff) < 256 && ((x >> 16u32) & 0xff) < 256 && ((x
        >> 24u32) & 0xff) < 256) by (bit_vector);
    assert((y & 0xff) < 256 && ((y >> 8u32) & 0xff) < 256 && ((y >> 16u32) & 0xff) < 256 && ((y
        >> 24u32) & 0xff) < 256) by (bit_vector);
    assert((x & 0xff) == (y & 0xff) && ((x >> 8u32) & 0xff) == ((y >> 8u32) & 0xff) && ((x
        >> 16u32) & 0xff) == ((y >> 16u32) & 0xff) && ((x >> 24u32) & 0xff) == ((y >> 24u32)
        & 0xff) ==> x == y) by (bit_vector);
}

/// The layout of the block: 88 bytes with no padding; the view matrix fills
/// bytes 0 to 63, the eye bytes 64 to 79, the aspect ratio bytes 80 to 83
/// and the field of view bytes 84 to 87, each word least significant byte
/// first.
pub proof fn lemma_block_layout(d: UniformData)
    ensures
        d.bytes().len() == BLOCK_BYTES,
        forall|j: int, b: int|
            0 <= j < 16 && 0 <= b < 4 ==> d.bytes()[4 * j + b] == #[trigger] le_bytes(
                d.view@[j],
            )[b],
        forall|j: int, b: int|
            0 <= j < 4 && 0 <= b < 4 ==> d.bytes()[64 + 4 * j + b] == #[trigger] le_bytes(
                d.eye@[j],
            )[b],
        forall|j: int, b: int|
            0 <= j < 2 && 0 <= b < 4 ==> d.bytes()[80 + 4 * j + b] == #[trigger] le_bytes(
                d.camera@[j],
            )[b],
{
    let ws = d.words();
    lemma_encode_len(ws);
    assert forall|j: int, b: int| 0 <= j < 16 && 0 <= b < 4 implies d.bytes()[4 * j + b]
        == #[trigger] le_bytes(d.view@[j])[b] by {
        lemma_encode_index(ws, j, b);
        assert(ws[j] == d.view@[j]);
    }
    assert forall|j: int, b: int| 0 <= j < 4 && 0 <= b < 4 implies d.bytes()[64 + 4 * j + b]
        == #[trigger] le_bytes(d.eye@[j])[b] by {
        lemma_encode_index(ws, 16 + j, b);
        assert(ws[16 + j] == d.eye@[j]);
    }
    assert forall|j: int, b: int| 0 <= j < 2 && 0 <= b < 4 implies d.bytes()[80 + 4 * j + b]
        == #[trigger] le_bytes(d.camera@[j])[b] by {
        lemma_encode_index(ws, 20 + j, b);
        assert(ws[20 + j] == d.camera@[j]);
    }
}

/// The bytes of a block determine it: two blocks with the same bytes are
/// the same block.
pub proof fn lemma_bytes_determine_block(a: UniformData, c: UniformData)
    requires
        a.bytes() == c.bytes(),
    ensures
        a == c,
{
    let wa = a.words();
    let wc = c.words();
    lemma_encode_len(wa);
    lemma_encode_len(wc);
    assert forall|j: int| 0 <= j < wa.len() implies wa[j] == wc[j] by {
        lemma_encode_index(wa, j, 0);
        lemma_encode_index(wa, j, 1);
        lemma_encode_index(wa, j, 2);
        lemma_encode_index(wa, j, 3);
        lemma_encode_index(wc, j, 0);
        lemma_encode_index(wc, j, 1);
        lemma_encode_index(wc, j, 2);
        lemma_encode_index(wc, j, 3);
        assert(le_bytes(wa[j]) =~= le_bytes(wc[j]));
        lemma_le_bytes_injective(wa[j], wc[j]);
    }
    assert(a.view@ =~= c.view@) by {
        assert forall|j: int| 0 <= j < 16 implies a.view@[j] == c.view@[j] by {
            assert(wa[j] == a.view@[j] && wc[j] == c.view@[j]);
        }
    }
    assert(a.eye@ =~= c.eye@) by {
        assert forall|j: int| 0 <= j < 4 implies a.eye@[j] == c.eye@[j] by {
            assert(wa[16 + j] == a.eye@[j] && wc[16 + j] == c.eye@[j]);
        }
    }
    assert(a.camera@ =~= c.camera@) by {
        assert forall|j: int| 0 <= j < 2 implies a.camera@[j] == c.camera@[j] by {
            assert(wa[20 + j] == a.camera@[j] && wc[20 + j] == c.camera@[j]);
        }
    }
    assert(a.view == c.view);
    assert(a.eye == c.eye);
    assert(a.camera == c.camera);
}

/// Capturing the same camera twice gives the same block, byte for byte:
/// the bytes depend on the camera's values alone.
pub proof fn lemma_capture_repeats(
    a: UniformData,
    c: UniformData,
    view: [u32; 16],
    eye: [u32; 3],
    aspect: u32,
    fov: u32,
)
    requires
        a.is_capture_of(view, eye, aspect, fov),
        c.is_capture_of(view, eye, aspect, fov),
    ensures
        a == c,
        a.bytes() == c.bytes(),
{
    assert(a.eye == c.eye);
    assert(a.camera == c.camera);
}

} // verus!
