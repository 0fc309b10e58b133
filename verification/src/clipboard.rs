//! Clipboard payloads: flat RGBA pixel regions, their trimming to content,
//! and the rectangle and mask records a layer clip carries.

use vstd::prelude::*;

use base64::Engine;

verus! {

/// Whether the texel at `(x, y)` of a `w`-wide straight-alpha RGBA buffer
/// has non-zero alpha.
pub open spec fn opaque_at(rgba: Seq<u8>, w: int, x: int, y: int) -> bool {
    rgba[(y * w + x) * 4 + 3] != 0
}

/// Whether any texel of the `w`×`h` region is non-transparent.
pub open spec fn has_content(rgba: Seq<u8>, w: int, h: int) -> bool {
    exists|x: int, y: int| 0 <= x < w && 0 <= y < h && #[trigger] opaque_at(rgba, w, x, y)
}

/// Whether `(x0, y0, x1, y1)` is the bounding box (inclusive) of the
/// non-transparent texels of the `w`×`h` region.
pub open spec fn is_content_box(rgba: Seq<u8>, w: int, h: int, b: (int, int, int, int)) -> bool {
    let (x0, y0, x1, y1) = b;
    &&& 0 <= x0 <= x1 < w
    &&& 0 <= y0 <= y1 < h
    &&& forall|x: int, y: int|
        0 <= x < w && 0 <= y < h && #[trigger] opaque_at(rgba, w, x, y) ==> x0 <= x <= x1 && y0 <= y
            <= y1
    &&& exists|y: int| 0 <= y < h && #[trigger] opaque_at(rgba, w, x0, y)
    &&& exists|y: int| 0 <= y < h && #[trigger] opaque_at(rgba, w, x1, y)
    &&& exists|x: int| 0 <= x < w && #[trigger] opaque_at(rgba, w, x, y0)
    &&& exists|x: int| 0 <= x < w && #[trigger] opaque_at(rgba, w, x, y1)
}

/// The bounding box of the non-transparent texels.
pub open spec fn content_box(rgba: Seq<u8>, w: int, h: int) -> (int, int, int, int) {
    choose|b: (int, int, int, int)| is_content_box(rgba, w, h, b)
}

/// Rows `y0 .. y0 + n` of the `tw`-texel-wide column band starting at `x0`,
/// concatenated top to bottom.
pub open spec fn crop_rows(rgba: Seq<u8>, w: int, x0: int, tw: int, y0: int, n: int) -> Seq<u8>
    decreases n,
{
    if n <= 0 {
        Seq::empty()
    } else {
        let row = ((y0 + n - 1) * w + x0) * 4;
        crop_rows(rgba, w, x0, tw, y0, n - 1) + rgba.subrange(row, row + tw * 4)
    }
}

/// What [`trim_to_content`] returns.
pub open spec fn trimmed(rgba: Seq<u8>, width: u32, height: u32, offset_x: i32, offset_y: i32) ->
    Option<(Seq<u8>, u32, u32, i32, i32)> {
    let (w, h) = (width as int, height as int);
    if rgba.len() < w * h * 4 || !has_content(rgba, w, h) {
        None
    } else {
        let (x0, y0, x1, y1) = content_box(rgba, w, h);
        if x0 == 0 && y0 == 0 && x1 == w - 1 && y1 == h - 1 {
            Some((rgba, width, height, offset_x, offset_y))
        } else {
            let (tw, th) = (x1 - x0 + 1, y1 - y0 + 1);
            Some(
                (
                    crop_rows(rgba, w, x0, tw, y0, th),
                    tw as u32,
                    th as u32,
                    (offset_x + (x0 as i32)) as i32,
                    (offset_y + (y0 as i32)) as i32,
                ),
            )
        }
    }
}

/// What `trim_to_content` may be asked without overflowing: the region's
/// byte size fits in `usize`, and moving the origin by the trimmed margin
/// stays within `i32`.
pub open spec fn trim_fits(rgba: Seq<u8>, width: u32, height: u32, offset_x: i32, offset_y: i32) -> bool {
    let (w, h) = (width as int, height as int);
    &&& w * h * 4 <= usize::MAX
    &&& (rgba.len() >= w * h * 4 && has_content(rgba, w, h)) ==> {
        let (x0, y0, x1, y1) = content_box(rgba, w, h);
        &&& i32::MIN <= offset_x + (x0 as i32) <= i32::MAX
        &&& i32::MIN <= offset_y + (y0 as i32) <= i32::MAX
    }
}

proof fn lemma_content_box_unique(rgba: Seq<u8>, w: int, h: int, a: (int, int, int, int), b: (
    int,
    int,
    int,
    int,
))
    requires
        is_content_box(rgba, w, h, a),
        is_content_box(rgba, w, h, b),
    ensures
        a == b,
{
    let ya = choose|y: int| 0 <= y < h && #[trigger] opaque_at(rgba, w, a.0, y);
    let yb = choose|y: int| 0 <= y < h && #[trigger] opaque_at(rgba, w, b.0, y);
    assert(b.0 <= a.0 && a.0 <= b.0);
    let ya1 = choose|y: int| 0 <= y < h && #[trigger] opaque_at(rgba, w, a.2, y);
    let yb1 = choose|y: int| 0 <= y < h && #[trigger] opaque_at(rgba, w, b.2, y);
    assert(a.2 <= b.2 && b.2 <= a.2);
    let xa = choose|x: int| 0 <= x < w && #[trigger] opaque_at(rgba, w, x, a.1);
    let xb = choose|x: int| 0 <= x < w && #[trigger] opaque_at(rgba, w, x, b.1);
    assert(b.1 <= a.1 && a.1 <= b.1);
    let xa1 = choose|x: int| 0 <= x < w && #[trigger] opaque_at(rgba, w, x, a.3);
    let xb1 = choose|x: int| 0 <= x < w && #[trigger] opaque_at(rgba, w, x, b.3);
    assert(a.3 <= b.3 && b.3 <= a.3);
}

proof fn lemma_texel_index(w: int, h: int, x: int, y: int)
    requires
        0 <= x < w,
        0 <= y < h,
    ensures
        0 <= (y * w + x) * 4 + 3 < w * h * 4,
        0 <= y * w + x,
{
    assert(y * w + x < w * h) by (nonlinear_arith)
        requires
            0 <= x < w,
            0 <= y < h,
    ;
    assert(0 <= y * w) by (nonlinear_arith)
        requires
            0 <= y,
            0 <= w,
    ;
}

/// The bounding box `(x0, y0, x1, y1)` (inclusive) of the non-transparent
/// texels of the `w`×`h` region, if any.
fn content_bounds(rgba: &[u8], w: usize, h: usize) -> (r: Option<(usize, usize, usize, usize)>)
    requires
        w * h * 4 <= usize::MAX,
        rgba@.len() >= w * h * 4,
    ensures
        r is None <==> !has_content(rgba@, w as int, h as int),
        r matches Some(b) ==> b.0 <= b.2 < w && b.1 <= b.3 < h && content_box(rgba@, w as int, h as int)
            == (b.0 as int, b.1 as int, b.2 as int, b.3 as int),
{
    let ghost s = rgba@;
    let mut min_x: usize = w;
    let mut min_y: usize = h;
    let mut max_x: usize = 0;
    let mut max_y: usize = 0;
    let mut found: bool = false;
    let mut y: usize = 0;
    while y < h
        invariant
            y <= h,
            s == rgba@,
            s.len() >= w * h * 4,
            w * h * 4 <= usize::MAX,
            found <==> exists|x: int, yy: int|
                0 <= x < w && 0 <= yy < y && #[trigger] opaque_at(s, w as int, x, yy),
            found ==> min_x < w && max_x < w && min_y < y && max_y < y && min_x <= max_x && min_y
                <= max_y,
            found ==> forall|x: int, yy: int|
                0 <= x < w && 0 <= yy < y && #[trigger] opaque_at(s, w as int, x, yy) ==> min_x <= x
                    <= max_x && min_y <= yy <= max_y,
            found ==> exists|yy: int| 0 <= yy < y && #[trigger] opaque_at(s, w as int, min_x as int, yy),
            found ==> exists|yy: int| 0 <= yy < y && #[trigger] opaque_at(s, w as int, max_x as int, yy),
            found ==> exists|x: int| 0 <= x < w && #[trigger] opaque_at(s, w as int, x, min_y as int),
            found ==> exists|x: int| 0 <= x < w && #[trigger] opaque_at(s, w as int, x, max_y as int),
        decreases h - y,
    {
        let mut x: usize = 0;
        while x < w
            invariant
                x <= w,
                y < h,
                s == rgba@,
                s.len() >= w * h * 4,
                w * h * 4 <= usize::MAX,
                found <==> exists|xx: int, yy: int|
                    ((0 <= xx < w && 0 <= yy < y) || (0 <= xx < x && yy == y)) && #[trigger] opaque_at(
                        s,
                        w as int,
                        xx,
                        yy,
                    ),
                found ==> min_x < w && max_x < w && min_y <= y && max_y <= y && min_x <= max_x
                    && min_y <= max_y,
                found ==> forall|xx: int, yy: int|
                    ((0 <= xx < w && 0 <= yy < y) || (0 <= xx < x && yy == y)) && #[trigger] opaque_at(
                        s,
                        w as int,
                        xx,
                        yy,
                    ) ==> min_x <= xx <= max_x && min_y <= yy <= max_y,
                found ==> exists|yy: int| 0 <= yy <= y && #[trigger] opaque_at(s, w as int, min_x as int, yy),
                found ==> exists|yy: int| 0 <= yy <= y && #[trigger] opaque_at(s, w as int, max_x as int, yy),
                found ==> exists|xx: int| 0 <= xx < w && #[trigger] opaque_at(s, w as int, xx, min_y as int),
                found ==> exists|xx: int| 0 <= xx < w && #[trigger] opaque_at(s, w as int, xx, max_y as int),
            decreases w - x,
        {
            proof {
                lemma_texel_index(w as int, h as int, x as int, y as int);
            }
            if rgba[(y * w + x) * 4 + 3] != 0 {
                assert(opaque_at(s, w as int, x as int, y as int));
                if !found || x < min_x {
                    min_x = x;
                }
                if !found || y < min_y {
                    min_y = y;
                }
                if !found || x > max_x {
                    max_x = x;
                }
                if !found || y > max_y {
                    max_y = y;
                }
                found = true;
            }
            x = x + 1;
        }
        y = y + 1;
    }
    if !found {
        return None;
    }
    proof {
        let b = (min_x as int, min_y as int, max_x as int, max_y as int);
        let (x0, y0, x1, y1) = b;
        assert(0 <= x0 <= x1 < w);
        assert(0 <= y0 <= y1 < h);
        assert(forall|x: int, y: int|
            0 <= x < w && 0 <= y < h && #[trigger] opaque_at(s, w as int, x, y) ==> x0 <= x <= x1
                && y0 <= y <= y1);
        assert(exists|y: int| 0 <= y < h && #[trigger] opaque_at(s, w as int, x0, y));
        assert(exists|y: int| 0 <= y < h && #[trigger] opaque_at(s, w as int, x1, y));
        assert(exists|x: int| 0 <= x < w && #[trigger] opaque_at(s, w as int, x, y0));
        assert(exists|x: int| 0 <= x < w && #[trigger] opaque_at(s, w as int, x, y1));
        assert(is_content_box(s, w as int, h as int, b));
        lemma_content_box_unique(s, w as int, h as int, b, content_box(s, w as int, h as int));
    }
    Some((min_x, min_y, max_x, max_y))
}

/// Whether [`trim_to_content`] may be asked to trim this region: what
/// [`trim_fits`] says, tested.
pub fn trim_fits_check(rgba: &[u8], width: u32, height: u32, offset_x: i32, offset_y: i32) -> (r: bool)
    ensures
        r == trim_fits(rgba@, width, height, offset_x, offset_y),
{
    let w = width as usize;
    let h = height as usize;
    let size = match w.checked_mul(h) {
        Some(p) => match p.checked_mul(4) {
            Some(q) => q,
            None => return false,
        },
        None => {
            assert(w * h * 4 > usize::MAX) by (nonlinear_arith)
                requires
                    w * h > usize::MAX,
            ;
            return false;
        },
    };
    if rgba.len() < size {
        return true;
    }
    match content_bounds(rgba, w, h) {
        None => true,
        Some((x0, y0, _x1, _y1)) => {
            let ox = offset_x as i64 + (x0 as i32) as i64;
            let oy = offset_y as i64 + (y0 as i32) as i64;
            i32::MIN as i64 <= ox && ox <= i32::MAX as i64 && i32::MIN as i64 <= oy && oy <= i32::MAX as i64
        },
    }
}

/// Shrink a straight-alpha RGBA region to the bounding box of its
/// non-transparent pixels, moving the origin so the content keeps its
/// position. `None` when the buffer is too short for the region or every
/// pixel is transparent; the whole buffer back, unchanged, when the content
/// already fills the region.
pub fn trim_to_content(rgba: &[u8], width: u32, height: u32, offset_x: i32, offset_y: i32) -> (r:
    Option<(Vec<u8>, u32, u32, i32, i32)>)
    requires
        trim_fits(rgba@, width, height, offset_x, offset_y),
    ensures
        match r {
            None => trimmed(rgba@, width, height, offset_x, offset_y) is None,
            Some((out, tw, th, ox, oy)) => trimmed(rgba@, width, height, offset_x, offset_y)
                == Some((out@, tw, th, ox, oy)),
        },
{
    let w = width as usize;
    let h = height as usize;
    assert(w * h * 4 <= usize::MAX);
    assert(0 <= w * h) by (nonlinear_arith)
        requires
            0 <= w,
            0 <= h,
    ;
    if rgba.len() < w * h * 4 {
        return None;
    }
    let ghost s = rgba@;
    assert(s.len() <= usize::MAX);
    let (min_x, min_y, max_x, max_y) = match content_bounds(rgba, w, h) {
        Some(bounds) => bounds,
        None => return None,
    };
    if min_x == 0 && min_y == 0 && max_x == w - 1 && max_y == h - 1 {
        return Some((rgba_to_vec(rgba), width, height, offset_x, offset_y));
    }
    let tw = max_x - min_x + 1;
    let th = max_y - min_y + 1;
    assert(w * 4 <= w * h * 4) by (nonlinear_arith)
        requires
            h >= 1,
            w >= 0,
    ;
    let mut out: Vec<u8> = Vec::new();
    let mut row_y: usize = min_y;
    while row_y <= max_y
        invariant
            min_y <= row_y <= max_y + 1,
            max_y < h,
            min_x <= max_x < w,
            tw == max_x - min_x + 1,
            tw * 4 <= w * 4,
            w * 4 <= w * h * 4,
            s.len() <= usize::MAX,
            s == rgba@,
            s.len() >= w * h * 4,
            w * h * 4 <= usize::MAX,
            out@ == crop_rows(s, w as int, min_x as int, tw as int, min_y as int, row_y - min_y),
        decreases max_y + 1 - row_y,
    {
        proof {
            lemma_texel_index(w as int, h as int, min_x as int, row_y as int);
            lemma_texel_index(w as int, h as int, max_x as int, row_y as int);
        }
        let row = (row_y * w + min_x) * 4;
        let ghost before = out@;
        let mut k: usize = 0;
        while k < tw * 4
            invariant
                k <= tw * 4,
                row + tw * 4 <= s.len(),
                s.len() <= usize::MAX,
                s == rgba@,
                out@ == before + s.subrange(row as int, row + k),
            decreases tw * 4 - k,
        {
            out.push(rgba[row + k]);
            k = k + 1;
            assert(out@ =~= before + s.subrange(row as int, row + k));
        }
        row_y = row_y + 1;
    }
    Some((out, tw as u32, th as u32, offset_x + min_x as i32, offset_y + min_y as i32))
}

/// An owned copy of a byte slice.
fn rgba_to_vec(rgba: &[u8]) -> (v: Vec<u8>)
    ensures
        v@ == rgba@,
{
    let mut v: Vec<u8> = Vec::new();
    let mut i: usize = 0;
    while i < rgba.len()
        invariant
            i <= rgba@.len(),
            v@ == rgba@.take(i as int),
        decreases rgba.len() - i,
    {
        v.push(rgba[i]);
        i = i + 1;
        assert(v@ =~= rgba@.take(i as int));
    }
    assert(rgba@.take(rgba@.len() as int) =~= rgba@);
    v
}

/// A rectangular region of RGBA pixels stored as a flat buffer.
/// Created by GPU readback (copy), consumed by a texture write (paste).
pub struct ImageClip {
    /// Flat RGBA pixel data, row-major, `width * height * 4` bytes.
    pub data: Vec<u8>,
    pub width: u32,
    pub height: u32,
    pub offset_x: i32,
    pub offset_y: i32,
}

impl ImageClip {
    /// Create an `ImageClip` from raw RGBA bytes of a `width`×`height` region.
    pub fn from_rgba(width: u32, height: u32, rgba: Vec<u8>, offset_x: i32, offset_y: i32) -> (c:
        Self)
        requires
            rgba@.len() == width * height * 4,
        ensures
            c.data@ == rgba@,
            c.width == width,
            c.height == height,
            c.offset_x == offset_x,
            c.offset_y == offset_y,
    {
        ImageClip { data: rgba, width, height, offset_x, offset_y }
    }

    /// The clip as `(bytes, width, height, offset_x, offset_y)`, for
    /// encoding elsewhere.
    pub fn to_rgba(&self) -> (r: (&[u8], u32, u32, i32, i32))
        ensures
            r.0@ == self.data@,
            r.1 == self.width,
            r.2 == self.height,
            r.3 == self.offset_x,
            r.4 == self.offset_y,
    {
        (self.data.as_slice(), self.width, self.height, self.offset_x, self.offset_y)
    }

    /// Whether this clip has no pixel data.
    pub fn is_empty(&self) -> (r: bool)
        ensures
            r == (self.data@.len() == 0),
    {
        self.data.len() == 0
    }
}

/// A layer clip's rectangle, in canvas pixels.
#[derive(Clone, Copy, Debug, PartialEq, Eq, Structural)]
pub struct ClipboardRect {
    pub x: i32,
    pub y: i32,
    pub width: u32,
    pub height: u32,
}

/// Mask metadata a layer clip carries: the mask's name, visibility and
/// bounds. Its pixel payload is reserved and empty in this schema version.
#[derive(Clone, Debug, PartialEq, Eq)]
pub struct MaskClipboard {
    pub name: String,
    pub visible: bool,
    pub bounds: ClipboardRect,
    pub pixels_b64: String,
}


/// What `STANDARD.decode` of the `base64` crate (standard alphabet, padded)
/// gives for the text `text`: the bytes it encodes, or `None` when it is
/// not valid base64.
pub uninterp spec fn base64_decoded(text: Seq<char>) -> Option<Seq<u8>>;

/// `base64::engine::general_purpose::STANDARD.decode`, its error dropped.
/// The contract says only that the outcome is [`base64_decoded`] of the text.
#[verifier::external_body]
fn decode_base64(text: &str) -> (r: Option<Vec<u8>>)
    ensures
        match r {
            Some(v) => base64_decoded(text@) == Some(v@),
            None => base64_decoded(text@) is None,
        },
{
    base64::engine::general_purpose::STANDARD.decode(text).ok()
}

/// A decoded payload kept when it holds exactly `bounds.width ×
/// bounds.height` RGBA texels.
pub open spec fn full_payload(decoded: Option<Seq<u8>>, bounds: ClipboardRect) -> Option<Seq<u8>> {
    match decoded {
        Some(p) => if p.len() == bounds.width * bounds.height * 4 {
            Some(p)
        } else {
            None
        },
        None => None,
    }
}

/// What [`layer_pixels`] gives: the decoded payload when it holds exactly
/// `bounds.width × bounds.height` RGBA texels.
pub open spec fn layer_payload(pixels_b64: Seq<char>, bounds: ClipboardRect) -> Option<Seq<u8>> {
    full_payload(base64_decoded(pixels_b64), bounds)
}

/// The bytes an optional buffer holds, as a value.
pub open spec fn bytes_view(o: Option<Vec<u8>>) -> Option<Seq<u8>> {
    match o {
        Some(v) => Some(v@),
        None => None,
    }
}

/// The decoded payload `decoded` of a layer clip, kept when it holds exactly
/// one RGBA texel per pixel of `bounds`; `None` otherwise.
pub fn full_pixels(decoded: Option<Vec<u8>>, bounds: ClipboardRect) -> (r: Option<Vec<u8>>)
    requires
        bounds.width * bounds.height * 4 <= u32::MAX,
    ensures
        match r {
            Some(v) => full_payload(bytes_view(decoded), bounds) == Some(v@),
            None => full_payload(bytes_view(decoded), bounds) is None,
        },
{
    let pixels = match decoded {
        Some(p) => p,
        None => return None,
    };
    assert(0 <= bounds.width * bounds.height) by (nonlinear_arith);
    let expected = (bounds.width * bounds.height * 4) as usize;
    if pixels.len() != expected {
        return None;
    }
    Some(pixels)
}

/// The raw RGBA pixels of a layer clip: its base64 payload decoded, when it
/// decodes and holds exactly one texel per pixel of `bounds`; `None`
/// otherwise.
pub fn layer_pixels(pixels_b64: &str, bounds: ClipboardRect) -> (r: Option<Vec<u8>>)
    requires
        bounds.width * bounds.height * 4 <= u32::MAX,
    ensures
        match r {
            Some(v) => layer_payload(pixels_b64@, bounds) == Some(v@),
            None => layer_payload(pixels_b64@, bounds) is None,
        },
{
    let decoded = decode_base64(pixels_b64);
    proof {
        assert(bytes_view(decoded) == base64_decoded(pixels_b64@));
    }
    full_pixels(decoded, bounds)
}

} // verus!
