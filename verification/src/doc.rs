//! The bitmap document container: a fixed-width, variable-height,
//! 1-bit-per-pixel monochrome image with validated length.

use vstd::prelude::*;

verus! {

/// Width of every document in pixels.
pub const WIDTH: usize = 384;

/// Bytes per packed pixel row (8 pixels per byte).
pub const ROW_BYTES: usize = 48;

/// Errors raised when constructing a [`Document`].
#[derive(Clone, Copy, Debug, PartialEq, Eq, Structural)]
pub enum DocumentError {
    /// The document has an invalid width.
    Width,
    /// The pixel buffer has the wrong length: expected, then actual.
    Len(usize, usize),
}

/// A monochrome bitmap to be printed: row-major, MSB-first bit packing,
/// fixed width of [`WIDTH`] pixels, so each row occupies [`ROW_BYTES`] bytes.
///
/// The pixel buffer's length is always an exact multiple of [`ROW_BYTES`];
/// construction fails otherwise. A set bit is a black pixel.
pub struct Document {
    pixels: Vec<u8>,
}

/// The packed bit for pixel `(x, y)`: byte `(y * 384 + x) / 8`, tested
/// against the mask `128 >> (x % 8)`, so the most significant bit is the
/// leftmost pixel. `true` is black.
pub open spec fn pixel_bit(pixels: Seq<u8>, x: nat, y: nat) -> bool {
    pixels[((y * 384 + x) / 8) as int] & (128u8 >> ((x % 8) as u8)) != 0
}

impl View for Document {
    type V = Seq<u8>;

    /// A document is abstractly its packed pixel buffer.
    closed spec fn view(&self) -> Seq<u8> {
        self.pixels@
    }
}

impl Document {
    /// The buffer length is an exact multiple of the row size.
    pub open spec fn wf(&self) -> bool {
        self@.len() % 48 == 0
    }

    /// Height in rows, derived from the buffer length.
    pub open spec fn spec_height(&self) -> nat {
        self@.len() / 48
    }

    /// Create a new document from a packed pixel buffer.
    ///
    /// Succeeds exactly when the buffer length is a multiple of the row
    /// size; otherwise reports the expected and actual lengths.
    pub fn new(pixels: Vec<u8>) -> (r: Result<Document, DocumentError>)
        ensures
            pixels@.len() % 48 == 0 ==> (r matches Ok(d) && d@ == pixels@ && d.wf()),
            pixels@.len() % 48 != 0 ==> r == Err::<Document, _>(DocumentError::Len(
                ((pixels@.len() / 48) * 48) as usize,
                pixels@.len() as usize,
            )),
    {
        let len = pixels.len();
        let height = len / ROW_BYTES;
        let expected = height * ROW_BYTES;
        if expected != len {
            return Err(DocumentError::Len(expected, len));
        }
        Ok(Document { pixels })
    }

    /// Width of the document in pixels; the same for every document.
    pub fn width(&self) -> (r: usize)
        ensures
            r == 384,
    {
        WIDTH
    }

    /// Height of the document in rows.
    pub fn height(&self) -> (r: usize)
        ensures
            r == self.spec_height(),
    {
        self.pixels.len() / ROW_BYTES
    }

    /// The packed pixel buffer.
    pub fn pixels(&self) -> (r: &[u8])
        ensures
            r@ == self@,
    {
        self.pixels.as_slice()
    }

    /// Look up the pixel at `(x, y)`: `Some(true)` for black, `Some(false)`
    /// for white, and `None` when the coordinates are out of bounds.
    pub fn get(&self, x: usize, y: usize) -> (r: Option<bool>)
        ensures
            x < 384 && y < self.spec_height() ==> r == Some(pixel_bit(self@, x as nat, y as nat)),
            !(x < 384 && y < self.spec_height()) ==> r is None,
    {
        let n = self.pixels.len();
        if x >= WIDTH || y >= n / ROW_BYTES {
            return None;
        }
        proof {
            lemma_pixel_index(self@, x as nat, y as nat);
        }
        let b = self.pixels[y * ROW_BYTES + x / 8];
        Some(b & (128u8 >> ((x % 8) as u8)) != 0)
    }
}

/// The byte at offset `i` of the built-in test page: a striped pattern of
/// alternating dotted and blank eight-row bands.
pub open spec fn test_page_byte(i: int) -> u8 {
    if i % 2 == 0 && (i / 48 / 8) % 2 == 0 {
        0xff
    } else {
        0x00
    }
}

/// A built-in test page: a 384-row striped pattern used to exercise a
/// printer without any external image source.
pub fn test_page() -> (r: Document)
    ensures
        r.wf(),
        r@.len() == 48 * 384,
        forall|i: int| 0 <= i < r@.len() ==> r@[i] == test_page_byte(i),
{
    let n: usize = 48 * 384;
    let mut pixels: Vec<u8> = Vec::new();
    let mut i: usize = 0;
    while i < n
        invariant
            i <= n,
            pixels@.len() == i,
            forall|j: int| 0 <= j < i ==> pixels@[j] == test_page_byte(j),
        decreases n - i,
    {
        if i % 2 == 0 && (i / 48 / 8) % 2 == 0 {
            pixels.push(0xff);
        } else {
            pixels.push(0x00);
        }
        i = i + 1;
    }
    match Document::new(pixels) {
        Ok(d) => d,
        Err(_) => {
            proof {
                assert(false);
            }
            Document { pixels: Vec::new() }
        },
    }
}

/// For in-bounds coordinates the packed byte index `(y * 384 + x) / 8`
/// equals `y * 48 + x / 8` and lies inside the buffer.
proof fn lemma_pixel_index(pixels: Seq<u8>, x: nat, y: nat)
    requires
        x < 384,
        y < pixels.len() / 48,
    ensures
        (y * 384 + x) / 8 == y * 48 + x / 8,
        y * 48 + x / 8 < pixels.len(),
{
    assert((y * 384 + x) / 8 == y * 48 + x / 8 && y * 48 + x / 8 < pixels.len()) by (nonlinear_arith)
        requires
            x < 384,
            y < pixels.len() / 48,
    ;
}

} // verus!
