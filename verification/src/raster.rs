//! The rasterizer pipeline: parse an SVG description, validate its
//! geometry, rasterize onto a transparent square target, validate that the
//! result is visible, and encode it as PNG.
//!
//! Parsing, rendering and PNG encoding are delegated to the `usvg`,
//! `resvg` and `tiny_skia` crates behind trusted wrappers; every decision
//! the pipeline makes (error classification, zero-size rejection, the
//! fit-and-center transform, the empty-render check) is verified code.
//!
//! The renderer's transform is floating point, which this library does not
//! hold: the caller converts the exact rational [`crate::geometry::FitTransform`]
//! into a `tiny_skia::Transform` and hands it in as an opaque value.

use vstd::prelude::*;
use crate::geometry::{milli_from_bits, positive_finite_bits, fit_spec, fit_transform,
    FitTransform, MAX_MILLI, MAX_TARGET_SIZE};

verus! {

/// The errors a conversion can end with.  Each is terminal for the call;
/// nothing is retried.
#[derive(Debug, PartialEq, Eq)]
pub enum ConvertError {
    /// The text is not a well-formed SVG document; carries the parser's
    /// diagnostic.
    Parse(String),
    /// The document's intrinsic width or height is zero (or otherwise not
    /// a positive size), so no scale factor exists for it.
    InvalidGeometry,
    /// Rendering produced no pixel with non-zero alpha: a blank icon is an
    /// error, not a result.
    EmptyRender,
    /// The PNG encoder failed; carries its diagnostic.
    Encode(String),
}

impl ConvertError {
    /// A short human-readable description, for callers that surface the
    /// error as text.
    pub fn describe(&self) -> (r: String)
        ensures
            self is Parse ==> r@ == self->Parse_0@,
            self is Encode ==> r@ == self->Encode_0@,
            self is InvalidGeometry ==> r@ == "document has a zero-sized intrinsic dimension"@,
            self is EmptyRender ==> r@ == "rendered image has no visible pixels"@,
    {
        match self {
            ConvertError::Parse(msg) => msg.clone(),
            ConvertError::InvalidGeometry => "document has a zero-sized intrinsic dimension".to_owned(),
            ConvertError::EmptyRender => "rendered image has no visible pixels".to_owned(),
            ConvertError::Encode(msg) => msg.clone(),
        }
    }
}

#[verifier::external_type_specification]
#[verifier::external_body]
pub struct ExTree(resvg::usvg::Tree);

#[verifier::external_type_specification]
#[verifier::external_body]
pub struct ExPixmap(resvg::tiny_skia::Pixmap);

#[verifier::external_type_specification]
#[verifier::external_body]
pub struct ExTransform(resvg::tiny_skia::Transform);

/// Whether `usvg` accepts a byte sequence, with default options:
/// `Err(true)` when it rejects the document's declared intrinsic size
/// (width or height not strictly positive, or no width, height and view
/// box declared at all), `Err(false)` on any other parse failure, `Ok`
/// otherwise.  The outcome is decided on the document's attributes alone,
/// before fonts or linked resources enter, so it is a pure function of
/// the bytes; the parsed dimensions themselves are not (see
/// [`parse_tree`]) and get no name.
pub uninterp spec fn parse_outcome(data: Seq<u8>) -> Result<(), bool>;

/// The RGBA bytes a pixmap holds, row-major, four bytes per pixel.
pub uninterp spec fn pixmap_data(p: resvg::tiny_skia::Pixmap) -> Seq<u8>;

/// A pixmap's width and height in pixels.
pub uninterp spec fn pixmap_dims(p: resvg::tiny_skia::Pixmap) -> (u32, u32);

/// The PNG encoding of an image of the given size and RGBA data: a pure
/// function of those alone.
pub uninterp spec fn png_of(width: u32, height: u32, data: Seq<u8>) -> Seq<u8>;

/// Relies on `usvg::Tree::from_data` with `usvg::Options::default()`:
/// whether parsing succeeds, and with which error, is decided on the
/// document's attributes alone before any content is converted, and
/// `Error::InvalidSize` is returned exactly when the document declares no
/// valid intrinsic size (a width or height of zero or less, or none at
/// all).  A parsed tree's size is a pair of strictly positive finite
/// `f32`s, read out here as bit patterns: sign bit clear, exponent not
/// all-ones, value nonzero.  Nothing more is promised of those values —
/// a percent-sized document takes its size from its content, which may
/// resolve linked images from disk, so the dimensions are not a function
/// of the bytes.
#[verifier::external_body]
fn parse_tree(data: &Vec<u8>) -> (r: Result<(resvg::usvg::Tree, u32, u32), (bool, String)>)
    ensures
        r is Ok <==> parse_outcome(data@) is Ok,
        r matches Ok(t) ==> (positive_finite_bits(t.1) && positive_finite_bits(t.2)),
        r matches Err(e) ==> (parse_outcome(data@) matches Err(sz) && e.0 == sz),
{
    match resvg::usvg::Tree::from_data(data, &resvg::usvg::Options::default()) {
        Ok(tree) => {
            let wb = tree.size().width().to_bits();
            let hb = tree.size().height().to_bits();
            Ok((tree, wb, hb))
        }
        Err(e @ resvg::usvg::Error::InvalidSize) => Err((true, e.to_string())),
        Err(e) => Err((false, e.to_string())),
    }
}

/// Relies on `tiny_skia::Pixmap::new`: for side lengths in
/// `1..=MAX_TARGET_SIZE` it returns a pixmap of exactly that size whose
/// RGBA data is all zero, i.e. fully transparent, four bytes per pixel.
#[verifier::external_body]
fn new_pixmap(size: u32) -> (p: resvg::tiny_skia::Pixmap)
    requires
        1 <= size <= MAX_TARGET_SIZE,
    ensures
        pixmap_dims(p) == (size, size),
        pixmap_data(p) == Seq::new(4 * (size as nat) * (size as nat), |i: int| 0u8),
{
    resvg::tiny_skia::Pixmap::new(size, size).unwrap()
}

/// Relies on `resvg::render`: it draws the tree onto the pixmap with the
/// given root transform, leaving the pixmap's size (and hence its data
/// length) unchanged.
#[verifier::external_body]
fn render_tree(
    tree: &resvg::usvg::Tree,
    transform: resvg::tiny_skia::Transform,
    pixmap: &mut resvg::tiny_skia::Pixmap,
)
    ensures
        pixmap_dims(*final(pixmap)) == pixmap_dims(*old(pixmap)),
        pixmap_data(*final(pixmap)).len() == pixmap_data(*old(pixmap)).len(),
{
    resvg::render(tree, transform, &mut pixmap.as_mut());
}

/// Relies on `tiny_skia::Pixmap::data`: it hands out the pixmap's RGBA
/// bytes.
#[verifier::external_body]
fn pixmap_bytes(p: &resvg::tiny_skia::Pixmap) -> (r: Vec<u8>)
    ensures
        r@ == pixmap_data(*p),
{
    p.data().to_vec()
}

/// Relies on `tiny_skia::Pixmap::encode_png`: the PNG bytes are a pure
/// function of the pixmap's size and pixel data, and encoding a valid
/// in-memory pixmap succeeds — the encoder demultiplies the pixels
/// (integer math) and writes 8-bit RGBA with fixed settings into a growing
/// byte vector, so the png crate's failure paths (indexed color without a
/// palette, a data length that does not match the declared size, a
/// faulting writer) cannot be reached from one.
#[verifier::external_body]
fn encode_pixmap_png(p: &resvg::tiny_skia::Pixmap) -> (r: Result<Vec<u8>, String>)
    ensures
        r is Ok,
        r matches Ok(v) ==> v@ == png_of(pixmap_dims(*p).0, pixmap_dims(*p).1, pixmap_data(*p)),
{
    p.encode_png().map_err(|e| e.to_string())
}

/// A parsed SVG document: the scene graph (opaque, owned by the parser
/// library) together with its intrinsic size in milli-units.
pub struct VectorDocument {
    /// The parsed scene graph, opaque to this library: only the renderer
    /// reads it.
    pub tree: resvg::usvg::Tree,
    /// Intrinsic width, in milli-units (thousandths of a pixel unit).
    pub width_milli: u64,
    /// Intrinsic height, in milli-units.
    pub height_milli: u64,
}

impl VectorDocument {
    /// A well-formed document has strictly positive dimensions within the
    /// decoder's cap.
    pub open spec fn wf(&self) -> bool {
        &&& 1 <= self.width_milli <= MAX_MILLI
        &&& 1 <= self.height_milli <= MAX_MILLI
    }

    /// The fit-and-center transform of this document on a square target of
    /// side `size`.
    pub fn fit(&self, size: u32) -> (tf: FitTransform)
        requires
            self.wf(),
            1 <= size <= MAX_TARGET_SIZE,
        ensures
            tf == fit_spec(self.width_milli, self.height_milli, size),
    {
        fit_transform(self.width_milli, self.height_milli, size)
    }
}

/// Parses an SVG description and validates its geometry.
///
/// Returns `Ok` exactly when the parser accepts the bytes;
/// `InvalidGeometry` exactly when the parser rejects the declared
/// intrinsic size (a zero-sized document cannot be scaled, so that
/// rejection is a geometry error, not a parse error); `Parse` on every
/// other parser failure.  An accepted document's dimensions are strictly
/// positive, and decode to at least one milli-unit each.
pub fn parse_document(data: &Vec<u8>) -> (r: Result<VectorDocument, ConvertError>)
    ensures
        r is Ok <==> parse_outcome(data@) is Ok,
        r matches Ok(doc) ==> doc.wf(),
        parse_outcome(data@) matches Err(sz) ==> (r matches Err(e)
            && (if sz { e is InvalidGeometry } else { e is Parse })),
{
    match parse_tree(data) {
        Ok((tree, wb, hb)) => {
            // A zero dimension cannot come out of an accepted parse: the
            // parser rejects a non-positive declared size with its size
            // error (surfaced below as InvalidGeometry), and a strictly
            // positive finite value decodes to at least one milli-unit.
            let w = milli_from_bits(wb);
            let h = milli_from_bits(hb);
            proof {
                crate::geometry::lemma_milli_of_bounded(wb);
                crate::geometry::lemma_milli_of_bounded(hb);
                crate::geometry::lemma_milli_of_positive(wb);
                crate::geometry::lemma_milli_of_positive(hb);
            }
            Ok(VectorDocument {
                tree,
                width_milli: w,
                height_milli: h,
            })
        }
        Err((invalid_size, msg)) => {
            if invalid_size {
                Err(ConvertError::InvalidGeometry)
            } else {
                Err(ConvertError::Parse(msg))
            }
        }
    }
}

/// How many pixels of an RGBA byte sequence have non-zero alpha (each
/// pixel is four bytes, alpha last).
pub open spec fn count_opaque(data: Seq<u8>) -> nat
    decreases data.len(),
{
    if data.len() < 4 {
        0
    } else {
        (if data[3] > 0 { 1nat } else { 0nat }) + count_opaque(data.skip(4))
    }
}

/// Counts the pixels with non-zero alpha, exactly as [`count_opaque`]
/// states.
pub fn count_visible_pixels(data: &Vec<u8>) -> (n: usize)
    ensures
        n == count_opaque(data@),
{
    let mut n: usize = 0;
    let mut i: usize = 0;
    proof {
        assert(data@.skip(0) == data@);
    }
    while data.len() - i >= 4
        invariant
            i <= data.len(),
            n <= i,
            count_opaque(data@) == n + count_opaque(data@.skip(i as int)),
        decreases data.len() - i,
    {
        let ghost pre = data@.skip(i as int);
        proof {
            assert(pre.len() >= 4);
            assert(pre[3] == data@[i + 3]);
            assert(pre.skip(4) == data@.skip(i + 4));
        }
        if data[i + 3] > 0 {
            n = n + 1;
        }
        i = i + 4;
    }
    proof {
        assert(count_opaque(data@.skip(i as int)) == 0);
    }
    n
}

/// Validates that a rendered pixmap is visible and encodes it as PNG.
///
/// Succeeds exactly when some pixel has non-zero alpha; `EmptyRender`
/// comes back otherwise.  An encoder fault would surface as `Encode`, but
/// this encoder cannot fail on a valid pixmap, so the contract owes
/// success whenever the pixmap is visible.
pub fn validate_and_encode(pixmap: &resvg::tiny_skia::Pixmap) -> (r: Result<Vec<u8>, ConvertError>)
    ensures
        r is Ok <==> count_opaque(pixmap_data(*pixmap)) > 0,
        r matches Ok(bytes) ==> bytes@ == png_of(pixmap_dims(*pixmap).0,
            pixmap_dims(*pixmap).1, pixmap_data(*pixmap)),
        r matches Err(e) ==> e is EmptyRender,
{
    let data = pixmap_bytes(pixmap);
    let visible = count_visible_pixels(&data);
    if visible == 0 {
        Err(ConvertError::EmptyRender)
    } else {
        match encode_pixmap_png(pixmap) {
            Ok(bytes) => Ok(bytes),
            Err(msg) => Err(ConvertError::Encode(msg)),
        }
    }
}

/// Rasterizes a parsed document onto a fresh transparent square target of
/// side `size` with the given placement transform, validates the result
/// and encodes it as PNG.
///
/// On success the bytes are the PNG encoding of a `size` by `size` image
/// in which at least one pixel is visible; the only error this stage can
/// end with is `EmptyRender`, exactly when the rendered target stayed
/// fully transparent.
pub fn rasterize(
    doc: &VectorDocument,
    transform: resvg::tiny_skia::Transform,
    size: u32,
) -> (r: Result<Vec<u8>, ConvertError>)
    requires
        doc.wf(),
        1 <= size <= MAX_TARGET_SIZE,
    ensures
        r matches Ok(bytes) ==> (exists|d: Seq<u8>|
            #![auto]
            d.len() == 4 * (size as nat) * (size as nat)
                && count_opaque(d) > 0
                && bytes@ == png_of(size, size, d)),
        r matches Err(e) ==> e is EmptyRender,
{
    let mut pixmap = new_pixmap(size);
    render_tree(&doc.tree, transform, &mut pixmap);
    validate_and_encode(&pixmap)
}

} // verus!
