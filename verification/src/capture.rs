//! Screenshots: which screen or window a capture mode grabs, what is made of
//! the grabbed image (cropping and PNG encoding through the `image` crate),
//! and the listing of the windows that can be captured.
//!
//! Grabbing the screen is input from the desktop, done outside the library:
//! the caller lists the monitors or windows (`capture_source` says which),
//! asks `select_capture_target` which one to grab, grabs it, and hands the
//! image (or the grab's error) to `capture`.
use vstd::prelude::*;
use crate::model::CaptureMode;
use crate::text::{append_i64, append_str, dec_nat, text};

verus! {

// ---------------------------------------------------------------------------
// Images
// ---------------------------------------------------------------------------

/// An RGBA image with 8 bits per channel, stored row by row.
pub struct Frame {
    pub width: u32,
    pub height: u32,
    pub pixels: Vec<u8>,
}

impl Frame {
    /// The pixel buffer holds exactly four bytes per pixel.
    pub open spec fn wf(&self) -> bool {
        self.pixels@.len() == self.width as int * self.height as int * 4
    }
}

/// The byte of channel `c` of the pixel at column `x`, row `y` of an image
/// `width` pixels wide.
pub open spec fn channel(pixels: Seq<u8>, width: int, x: int, y: int, c: int) -> u8 {
    pixels[(y * width + x) * 4 + c]
}

/// The part of an image that `image::imageops::crop_imm` keeps: the corner
/// is clamped into the image and the size to what remains of it.
pub open spec fn crop_bounds(fw: u32, fh: u32, x: u32, y: u32, w: u32, h: u32) -> (
    u32,
    u32,
    u32,
    u32,
) {
    let cx = if x <= fw {
        x
    } else {
        fw
    };
    let cy = if y <= fh {
        y
    } else {
        fh
    };
    let cw = if w <= fw - cx {
        w
    } else {
        (fw - cx) as u32
    };
    let ch = if h <= fh - cy {
        h
    } else {
        (fh - cy) as u32
    };
    (cx, cy, cw, ch)
}

/// Crops an image (`image::imageops::crop_imm(..).to_image()`): the result
/// is the part given by `crop_bounds`, each pixel copied from its place in
/// the source.
#[verifier::external_body]
fn crop_frame(frame: &Frame, x: u32, y: u32, w: u32, h: u32) -> (r: Frame)
    requires
        frame.wf(),
    ensures
        r.wf(),
        (r.width, r.height) == ({
            let b = crop_bounds(frame.width, frame.height, x, y, w, h);
            (b.2, b.3)
        }),
        forall|i: int, j: int, c: int|
            #![trigger channel(r.pixels@, r.width as int, i, j, c)]
            0 <= i < r.width && 0 <= j < r.height && 0 <= c < 4 ==> channel(
                r.pixels@,
                r.width as int,
                i,
                j,
                c,
            ) == channel(
                frame.pixels@,
                frame.width as int,
                crop_bounds(frame.width, frame.height, x, y, w, h).0 + i,
                crop_bounds(frame.width, frame.height, x, y, w, h).1 + j,
                c,
            ),
{
    let img = image::RgbaImage::from_raw(frame.width, frame.height, frame.pixels.clone()).unwrap();
    let out = image::imageops::crop_imm(&img, x, y, w, h).to_image();
    Frame { width: out.width(), height: out.height(), pixels: out.into_raw() }
}

/// A crop stays inside the image, starts at the requested corner (or the
/// image's far edge when the corner lies beyond it), and keeps the requested
/// size wherever the image reaches that far: a region inside the image is cut
/// out exactly, and one reaching past an edge is cut off at that edge.
pub proof fn law_crop_stays_inside(fw: u32, fh: u32, x: u32, y: u32, w: u32, h: u32)
    ensures
        ({
            let b = crop_bounds(fw, fh, x, y, w, h);
            &&& b.0 + b.2 <= fw && b.1 + b.3 <= fh
            &&& b.0 == (if x <= fw { x } else { fw })
            &&& b.1 == (if y <= fh { y } else { fh })
            &&& x + w <= fw ==> b.0 == x && b.2 == w
            &&& y + h <= fh ==> b.1 == y && b.3 == h
            &&& x + w > fw ==> b.0 + b.2 == fw
            &&& y + h > fh ==> b.1 + b.3 == fh
        }),
{
}

/// The PNG file that `image`'s `PngEncoder` writes for an RGBA image, or
/// `None` when it refuses the image.
pub uninterp spec fn png_encoding(pixels: Seq<u8>, width: u32, height: u32) -> Option<Seq<u8>>;

/// Encodes an RGBA image as PNG (`PngEncoder::write_image` with
/// `ExtendedColorType::Rgba8`), giving the encoder's error message when it
/// refuses the image. Writing into memory cannot fail, and the `png` encoder
/// refuses an image only for a zero width or height. Nothing is stated of the
/// error message.
#[verifier::external_body]
fn png_bytes(frame: &Frame) -> (r: Result<Vec<u8>, String>)
    requires
        frame.wf(),
    ensures
        (r matches Ok(b) ==> png_encoding(frame.pixels@, frame.width, frame.height) == Some(b@)),
        (r is Err ==> png_encoding(frame.pixels@, frame.width, frame.height) is None),
        (r is Ok) == (frame.width > 0 && frame.height > 0),
{
    let mut buf = Vec::new();
    let encoder = image::codecs::png::PngEncoder::new(&mut buf);
    match image::ImageEncoder::write_image(
        encoder,
        &frame.pixels,
        frame.width,
        frame.height,
        image::ExtendedColorType::Rgba8,
    ) {
        Ok(()) => Ok(buf),
        Err(e) => Err(e.to_string()),
    }
}

/// Whether an error text reports a refusal of the PNG encoder.
pub open spec fn png_refusal(e: Seq<char>) -> bool {
    &&& e.len() >= "PNG encode error: "@.len()
    &&& e.subrange(0, "PNG encode error: "@.len() as int) == "PNG encode error: "@
}

/// What encoding an image as PNG gives: the PNG file, or (for an empty image)
/// an error reported as `PNG encode error: ...`.
pub open spec fn encoded(pixels: Seq<u8>, width: u32, height: u32, r: Result<Vec<u8>, String>) -> bool {
    match png_encoding(pixels, width, height) {
        Some(b) => r matches Ok(v) && v@ == b,
        None => r matches Err(e) && png_refusal(e@),
    }
}

/// Encodes an image as PNG; an encoder error is reported as
/// `PNG encode error: ...`. Every non-empty image is encoded.
pub fn encode_png(frame: &Frame) -> (r: Result<Vec<u8>, String>)
    requires
        frame.wf(),
    ensures
        encoded(frame.pixels@, frame.width, frame.height, r),
        (r is Ok) == (frame.width > 0 && frame.height > 0),
{
    match png_bytes(frame) {
        Ok(b) => Ok(b),
        Err(e) => {
            let mut s = text("PNG encode error: ");
            let ghost prefix = s@;
            append_str(&mut s, e.as_str());
            assert(s@.subrange(0, prefix.len() as int) =~= prefix);
            Err(s)
        },
    }
}

// ---------------------------------------------------------------------------
// Capturing
// ---------------------------------------------------------------------------

/// What has to be listed to take a capture.
#[derive(Debug, Clone, Copy, PartialEq, Eq, Structural)]
pub enum CaptureSource {
    Monitors,
    Windows,
}

/// Whether a capture mode grabs a monitor (full screen and regions, which
/// are cut from the first monitor) or a window.
pub open spec fn source_of(mode: CaptureMode) -> CaptureSource {
    match mode {
        CaptureMode::Window(_) => CaptureSource::Windows,
        _ => CaptureSource::Monitors,
    }
}

/// What has to be listed to take a capture in the given mode.
pub fn capture_source(mode: &CaptureMode) -> (r: CaptureSource)
    ensures
        r == source_of(*mode),
{
    match mode {
        CaptureMode::Window(_) => CaptureSource::Windows,
        _ => CaptureSource::Monitors,
    }
}

/// `prefix` followed by the text of an error.
pub open spec fn prefixed(prefix: Seq<char>, e: Seq<char>) -> Seq<char> {
    prefix + e
}

/// The position of the first `id` in `ids`.
pub open spec fn first_position(ids: Seq<u32>, id: u32) -> Option<int>
    decreases ids.len(),
{
    if ids.len() == 0 {
        None
    } else if ids[0] == id {
        Some(0)
    } else {
        match first_position(ids.drop_first(), id) {
            Some(i) => Some(i + 1),
            None => None,
        }
    }
}

proof fn lemma_first_position(ids: Seq<u32>, id: u32, i: int)
    requires
        0 <= i <= ids.len(),
        forall|j: int| 0 <= j < i ==> ids[j] != id,
        i < ids.len() ==> ids[i] == id,
    ensures
        first_position(ids, id) == (if i < ids.len() {
            Some(i)
        } else {
            None::<int>
        }),
    decreases ids.len(),
{
    if ids.len() > 0 && ids[0] != id {
        lemma_first_position(ids.drop_first(), id, i - 1);
    }
}

/// Which listed monitor or window to grab. `listing` holds the identifiers of
/// the monitors (for full screen and regions) or of the windows (for a
/// window; an identifier that cannot be read counts as 0), in listing order,
/// or the listing's error. The first monitor is grabbed; of the windows, the
/// first with the wanted identifier.
pub open spec fn target_of(mode: CaptureMode, listing: Result<Seq<u32>, Seq<char>>) -> Result<
    int,
    Seq<char>,
> {
    match mode {
        CaptureMode::Window(id) => match listing {
            Err(e) => Err(prefixed("Failed to list windows: "@, e)),
            Ok(ids) => match first_position(ids, id) {
                Some(i) => Ok(i),
                None => Err("Window "@ + dec_nat(id as nat) + " not found"@),
            },
        },
        _ => match listing {
            Err(e) => Err(prefixed("Failed to list monitors: "@, e)),
            Ok(ids) => if ids.len() > 0 {
                Ok(0)
            } else {
                Err("No monitor found"@)
            },
        },
    }
}

/// Which monitor or window a capture grabs: every mode but `Window` takes the
/// first monitor listed, and `Window(id)` the first window listed with that
/// identifier; an empty listing, or no window with the identifier, is
/// refused, and a failed listing is reported with its message.
pub proof fn law_capture_target(mode: CaptureMode, ids: Seq<u32>, e: Seq<char>)
    ensures
        !(mode is Window) && ids.len() > 0 ==> target_of(mode, Ok(ids)) == Ok::<int, Seq<char>>(0),
        !(mode is Window) && ids.len() == 0 ==> target_of(mode, Ok(ids)) is Err,
        mode matches CaptureMode::Window(id) ==> match target_of(mode, Ok(ids)) {
            Ok(i) => 0 <= i < ids.len() && ids[i] == id && forall|j: int|
                0 <= j < i ==> ids[j] != id,
            Err(_) => forall|j: int| 0 <= j < ids.len() ==> ids[j] != id,
        },
        target_of(mode, Err(e)) is Err,
{
    if let CaptureMode::Window(id) = mode {
        lemma_first_position_is_first(ids, id);
    }
}

proof fn lemma_first_position_is_first(ids: Seq<u32>, id: u32)
    ensures
        first_position(ids, id) matches Some(i) ==> 0 <= i < ids.len() && ids[i] == id && forall|
            j: int,
        | 0 <= j < i ==> ids[j] != id,
        first_position(ids, id) is None ==> forall|j: int| 0 <= j < ids.len() ==> ids[j] != id,
    decreases ids.len(),
{
    if ids.len() > 0 {
        lemma_first_position_is_first(ids.drop_first(), id);
        if ids[0] != id {
            assert forall|j: int| 1 <= j < ids.len() implies ids[j] == ids.drop_first()[j - 1] by {}
        }
    }
}

/// The view of a listing.
pub open spec fn listing_view(l: Result<Vec<u32>, String>) -> Result<Seq<u32>, Seq<char>> {
    match l {
        Ok(v) => Ok(v@),
        Err(e) => Err(e@),
    }
}

/// Picks the monitor or window to grab for a capture.
pub fn select_capture_target(mode: &CaptureMode, listing: Result<Vec<u32>, String>) -> (r: Result<
    usize,
    String,
>)
    ensures
        match target_of(*mode, listing_view(listing)) {
            Ok(i) => r == Ok::<usize, String>(i as usize),
            Err(msg) => r matches Err(e) && e@ == msg,
        },
{
    match mode {
        CaptureMode::Window(id) => match &listing {
            Err(e) => {
                let mut s = text("Failed to list windows: ");
                append_str(&mut s, e.as_str());
                Err(s)
            },
            Ok(ids) => {
                let mut i: usize = 0;
                while i < ids.len()
                    invariant
                        i <= ids.len(),
                        forall|j: int| 0 <= j < i ==> ids@[j] != *id,
                        *mode == CaptureMode::Window(*id),
                        listing_view(listing) == Ok::<Seq<u32>, Seq<char>>(ids@),
                    decreases ids.len() - i,
                {
                    if ids[i] == *id {
                        proof {
                            lemma_first_position(ids@, *id, i as int);
                        }
                        return Ok(i);
                    }
                    i = i + 1;
                }
                proof {
                    lemma_first_position(ids@, *id, i as int);
                }
                let mut s = text("Window ");
                append_i64(&mut s, *id as i64);
                append_str(&mut s, " not found");
                Err(s)
            },
        },
        _ => match listing {
            Err(e) => {
                let mut s = text("Failed to list monitors: ");
                append_str(&mut s, e.as_str());
                Err(s)
            },
            Ok(ids) => {
                if ids.len() > 0 {
                    Ok(0)
                } else {
                    Err(text("No monitor found"))
                }
            },
        },
    }
}

/// Makes the PNG screenshot of a capture from what was grabbed: the grabbed
/// image (a region cropped out of it), or the grab's error, which is reported
/// as a failure to capture the screen (monitor modes) or the window. An empty
/// image, such as a region outside the screen, is reported as
/// `PNG encode error: ...`.
pub fn capture(mode: &CaptureMode, grabbed: Result<Frame, String>) -> (r: Result<Vec<u8>, String>)
    requires
        grabbed matches Ok(f) ==> f.wf(),
    ensures
        grabbed matches Err(g) ==> (r matches Err(e) && e@ == (match mode {
            CaptureMode::Window(_) => "Failed to capture window: "@,
            _ => "Failed to capture screen: "@,
        }) + g@),
        grabbed matches Ok(f) ==> match mode {
            CaptureMode::Region { x, y, w, h } => exists|c: Frame|
                #![trigger c.wf()]
                c.wf() && (c.width, c.height) == ({
                    let b = crop_bounds(f.width, f.height, *x as u32, *y as u32, *w, *h);
                    (b.2, b.3)
                }) && encoded(c.pixels@, c.width, c.height, r) && (r is Ok) == (c.width > 0
                    && c.height > 0) && forall|i: int, j: int, ch: int|
                    #![trigger channel(c.pixels@, c.width as int, i, j, ch)]
                    0 <= i < c.width && 0 <= j < c.height && 0 <= ch < 4 ==> channel(
                        c.pixels@,
                        c.width as int,
                        i,
                        j,
                        ch,
                    ) == channel(
                        f.pixels@,
                        f.width as int,
                        crop_bounds(f.width, f.height, *x as u32, *y as u32, *w, *h).0 + i,
                        crop_bounds(f.width, f.height, *x as u32, *y as u32, *w, *h).1 + j,
                        ch,
                    ),
            _ => encoded(f.pixels@, f.width, f.height, r) && (r is Ok) == (f.width > 0
                && f.height > 0),
        },
{
    match grabbed {
        Err(g) => {
            let mut s = match mode {
                CaptureMode::Window(_) => text("Failed to capture window: "),
                _ => text("Failed to capture screen: "),
            };
            append_str(&mut s, g.as_str());
            Err(s)
        },
        Ok(f) => match mode {
            CaptureMode::Region { x, y, w, h } => {
                let xu: u32 = #[verifier::truncate] (*x as u32);
                let yu: u32 = #[verifier::truncate] (*y as u32);
                let cropped = crop_frame(&f, xu, yu, *w, *h);
                let r = encode_png(&cropped);
                assert(cropped.wf());
                r
            },
            _ => encode_png(&f),
        },
    }
}

// ---------------------------------------------------------------------------
// Windows
// ---------------------------------------------------------------------------

/// A window that can be captured.
#[derive(Debug, Clone)]
pub struct WindowInfo {
    pub id: u32,
    pub title: String,
    pub x: i32,
    pub y: i32,
    pub width: u32,
    pub height: u32,
}

/// What could be read of a listed window; `None` where reading failed.
pub struct WindowProbe {
    pub minimized: Option<bool>,
    pub id: Option<u32>,
    pub title: Option<String>,
    pub x: Option<i32>,
    pub y: Option<i32>,
    pub width: Option<u32>,
    pub height: Option<u32>,
}

/// Whether a window is listed: it is not known to be minimized and all of
/// its fields could be read.
pub open spec fn listable(p: WindowProbe) -> bool {
    &&& p.minimized != Some(true)
    &&& p.id is Some
    &&& p.title is Some
    &&& p.x is Some
    &&& p.y is Some
    &&& p.width is Some
    &&& p.height is Some
}

/// The listable windows, in order.
pub open spec fn listable_windows(ps: Seq<WindowProbe>) -> Seq<WindowProbe>
    decreases ps.len(),
{
    if ps.len() == 0 {
        Seq::empty()
    } else {
        let rest = listable_windows(ps.drop_last());
        if listable(ps.last()) {
            rest.push(ps.last())
        } else {
            rest
        }
    }
}

/// The windows listed are exactly the listable ones, in listing order: the
/// readings filtered by `listable`, so every window that is not known to be
/// minimized and whose fields could all be read is listed.
pub proof fn law_windows_listed_are_the_listable_ones(ps: Seq<WindowProbe>)
    ensures
        listable_windows(ps) == ps.filter(|p: WindowProbe| listable(p)),
        forall|k: int|
            0 <= k < ps.len() && listable(#[trigger] ps[k]) ==> listable_windows(ps).contains(
                ps[k],
            ),
    decreases ps.len(),
{
    let pred = |p: WindowProbe| listable(p);
    reveal(Seq::filter);
    if ps.len() > 0 {
        law_windows_listed_are_the_listable_ones(ps.drop_last());
    }
    assert(listable_windows(ps) == ps.filter(pred));
    assert forall|k: int| 0 <= k < ps.len() && listable(#[trigger] ps[k]) implies listable_windows(
        ps,
    ).contains(ps[k]) by {
        ps.lemma_filter_contains(pred, k);
    }
}

/// How a readable window is listed.
pub open spec fn info_of(w: WindowInfo, p: WindowProbe) -> bool {
    &&& p.id == Some(w.id)
    &&& (p.title matches Some(t) && t@ == w.title@)
    &&& p.x == Some(w.x)
    &&& p.y == Some(w.y)
    &&& p.width == Some(w.width)
    &&& p.height == Some(w.height)
}

/// The windows that are not minimized and whose fields could all be read,
/// in listing order; a failed listing is reported as
/// `Failed to list windows: ...`.
pub fn list_windows(listing: Result<Vec<WindowProbe>, String>) -> (r: Result<
    Vec<WindowInfo>,
    String,
>)
    ensures
        listing matches Err(g) ==> (r matches Err(e) && e@ == "Failed to list windows: "@ + g@),
        listing matches Ok(ps) ==> (r matches Ok(ws) && ws@.len() == listable_windows(ps@).len()
            && forall|i: int|
            0 <= i < ws@.len() ==> info_of(#[trigger] ws@[i], listable_windows(ps@)[i])),
{
    match listing {
        Err(g) => {
            let mut s = text("Failed to list windows: ");
            append_str(&mut s, g.as_str());
            Err(s)
        },
        Ok(ps) => {
            let mut out: Vec<WindowInfo> = Vec::new();
            let mut k: usize = 0;
            while k < ps.len()
                invariant
                    k <= ps.len(),
                    out@.len() == listable_windows(ps@.subrange(0, k as int)).len(),
                    forall|i: int|
                        0 <= i < out@.len() ==> info_of(
                            #[trigger] out@[i],
                            listable_windows(ps@.subrange(0, k as int))[i],
                        ),
                decreases ps.len() - k,
            {
                let ghost pre = ps@.subrange(0, k + 1);
                assert(pre.drop_last() =~= ps@.subrange(0, k as int));
                assert(pre.last() == ps@[k as int]);
                let p = &ps[k];
                let minimized = match p.minimized {
                    Some(b) => b,
                    None => false,
                };
                if !minimized {
                    match (&p.id, &p.title, &p.x, &p.y, &p.width, &p.height) {
                        (Some(id), Some(title), Some(x), Some(y), Some(width), Some(height)) => {
                            out.push(
                                WindowInfo {
                                    id: *id,
                                    title: title.clone(),
                                    x: *x,
                                    y: *y,
                                    width: *width,
                                    height: *height,
                                },
                            );
                        },
                        _ => {},
                    }
                }
                k = k + 1;
            }
            assert(ps@.subrange(0, k as int) =~= ps@);
            Ok(out)
        },
    }
}

/// The windows that can be captured (see `list_windows`).
pub fn get_windows_list(listing: Result<Vec<WindowProbe>, String>) -> (r: Result<
    Vec<WindowInfo>,
    String,
>)
    ensures
        listing matches Err(g) ==> (r matches Err(e) && e@ == "Failed to list windows: "@ + g@),
        listing matches Ok(ps) ==> (r matches Ok(ws) && ws@.len() == listable_windows(ps@).len()
            && forall|i: int|
            0 <= i < ws@.len() ==> info_of(#[trigger] ws@[i], listable_windows(ps@)[i])),
{
    list_windows(listing)
}

} // verus!
