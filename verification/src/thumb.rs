//! Thumbnails: where they are cached, when a cached one may be used, and how one
//! is made.

use vstd::prelude::*;
use vstd::utf8::*;

use crate::path;
use crate::path::{CanonicalPath, FilePath};
use crate::reply;
use crate::reply::{BodyView, Reply, ReplyBody, ReplyView};
use crate::serve::ImageFile;
use crate::state::AppState;
use crate::text;

verus! {

// --- The cache ---

/// The cache path for a thumbnail.
pub open spec fn cache_path_of(cache_dir: Seq<u8>, dir_idx: nat, relative: Seq<char>) -> Seq<u8> {
    path::joined(
        path::joined(
            path::joined(cache_dir, encode_utf8("thumbs"@)),
            encode_utf8(text::decimal(dir_idx)),
        ),
        encode_utf8(relative),
    )
}

/// The cache path for the thumbnail of the image at `relative_path` in a
/// configured directory.
pub fn thumb_cache_path(cache_dir: &FilePath, dir_idx: usize, relative_path: &str) -> (r: FilePath)
    ensures
        r@ == cache_path_of(cache_dir@, dir_idx as nat, relative_path@),
{
    let mut number: String = String::new();
    text::push_decimal(&mut number, dir_idx as u64);
    assert(number@ =~= text::decimal(dir_idx as nat));
    cache_dir.join("thumbs").join(number.as_str()).join(relative_path)
}

// --- Getting a thumbnail, step by step ---

/// A request for a thumbnail.
pub struct ThumbJob {
    /// The image.
    pub source: CanonicalPath,
    /// Where its thumbnail is cached.
    pub cache_path: FilePath,
    /// The thumbnail's width and height in pixels.
    pub size: u32,
}

/// What is to be done next for a thumbnail.
pub enum ThumbStep {
    /// Find out whether there is anything at this path in the cache.
    CheckCache(FilePath),
    /// Find out when the image and the cached thumbnail were last modified.
    CompareTimes(CanonicalPath, FilePath),
    /// Read the cached thumbnail.
    ReadCache(FilePath),
    /// Wait for leave to make a thumbnail.
    AcquirePermit,
    /// Open the image at this path and make its thumbnail in this size.
    Generate(CanonicalPath, u32),
    /// Keep these bytes at this path in the cache.
    Store(FilePath, Vec<u8>),
    /// The thumbnail, or why there is none.
    Done(Result<Vec<u8>, String>),
}

/// What came of it.
pub enum ThumbEvent {
    /// Whether there is anything in the cache.
    Exists(bool),
    /// When the image and the cached thumbnail were last modified, in
    /// nanoseconds from any one moment; none where that could not be found out.
    Times(Option<i128>, Option<i128>),
    /// The cached thumbnail, or why it could not be read.
    Read(Result<Vec<u8>, String>),
    /// Leave to make a thumbnail, or why there is none.
    Permit(Result<(), String>),
    /// The thumbnail or why it could not be made, or why that did not end.
    Generated(Result<Result<Vec<u8>, String>, String>),
    /// The thumbnail has been kept, or could not be.
    Stored,
}

/// A result in specifications: bytes, or the text that says what went wrong.
pub open spec fn bytes_result(r: Result<Vec<u8>, String>) -> Result<Seq<u8>, Seq<char>> {
    match r {
        Ok(b) => Ok(b@),
        Err(e) => Err(e@),
    }
}

/// What is to be done next, in specifications.
pub enum ThumbStepView {
    CheckCache(Seq<u8>),
    CompareTimes(Seq<Seq<u8>>, Seq<u8>),
    ReadCache(Seq<u8>),
    AcquirePermit,
    Generate(Seq<Seq<u8>>, u32),
    Store(Seq<u8>, Seq<u8>),
    Done(Result<Seq<u8>, Seq<char>>),
}

impl View for ThumbStep {
    type V = ThumbStepView;

    open spec fn view(&self) -> ThumbStepView {
        match self {
            ThumbStep::CheckCache(p) => ThumbStepView::CheckCache(p@),
            ThumbStep::CompareTimes(s, p) => ThumbStepView::CompareTimes(s@, p@),
            ThumbStep::ReadCache(p) => ThumbStepView::ReadCache(p@),
            ThumbStep::AcquirePermit => ThumbStepView::AcquirePermit,
            ThumbStep::Generate(s, size) => ThumbStepView::Generate(s@, *size),
            ThumbStep::Store(p, b) => ThumbStepView::Store(p@, b@),
            ThumbStep::Done(r) => ThumbStepView::Done(bytes_result(*r)),
        }
    }
}

/// Whether an event is the outcome of a step.
pub open spec fn answers(step: ThumbStepView, event: ThumbEvent) -> bool {
    match step {
        ThumbStepView::CheckCache(_) => event is Exists,
        ThumbStepView::CompareTimes(_, _) => event is Times,
        ThumbStepView::ReadCache(_) => event is Read,
        ThumbStepView::AcquirePermit => event is Permit,
        ThumbStepView::Generate(_, _) => event is Generated,
        ThumbStepView::Store(_, _) => event is Stored,
        ThumbStepView::Done(_) => false,
    }
}

/// Whether a cached thumbnail is newer than its image.
pub open spec fn is_fresh(source: Option<i128>, cached: Option<i128>) -> bool {
    match (source, cached) {
        (Some(s), Some(c)) => c > s,
        _ => false,
    }
}

impl ThumbJob {
    /// What follows once `event` came of `step`.
    pub open spec fn next_step(self, step: ThumbStepView, event: ThumbEvent) -> ThumbStepView {
        match event {
            ThumbEvent::Exists(there) => if there {
                ThumbStepView::CompareTimes(self.source@, self.cache_path@)
            } else {
                ThumbStepView::AcquirePermit
            },
            ThumbEvent::Times(source, cached) => if is_fresh(source, cached) {
                ThumbStepView::ReadCache(self.cache_path@)
            } else {
                ThumbStepView::AcquirePermit
            },
            ThumbEvent::Read(r) => ThumbStepView::Done(bytes_result(r)),
            ThumbEvent::Permit(r) => match r {
                Ok(_) => ThumbStepView::Generate(self.source@, self.size),
                Err(e) => ThumbStepView::Done(Err(e@)),
            },
            ThumbEvent::Generated(r) => match r {
                Ok(Ok(bytes)) => ThumbStepView::Store(self.cache_path@, bytes@),
                Ok(Err(e)) => ThumbStepView::Done(Err(e@)),
                Err(e) => ThumbStepView::Done(Err(e@)),
            },
            ThumbEvent::Stored => match step {
                ThumbStepView::Store(_, bytes) => ThumbStepView::Done(Ok(bytes)),
                _ => step,
            },
        }
    }

    /// The first step: look into the cache.
    pub fn start(&self) -> (r: ThumbStep)
        ensures
            r@ == ThumbStepView::CheckCache(self.cache_path@),
    {
        ThumbStep::CheckCache(self.cache_path.clone())
    }

    /// The step that follows once `event` came of `step`.
    pub fn next(&self, step: ThumbStep, event: ThumbEvent) -> (r: ThumbStep)
        requires
            answers(step@, event),
        ensures
            r@ == self.next_step(step@, event),
    {
        match event {
            ThumbEvent::Exists(there) => if there {
                ThumbStep::CompareTimes(self.source.clone(), self.cache_path.clone())
            } else {
                ThumbStep::AcquirePermit
            },
            ThumbEvent::Times(Some(source), Some(cached)) => if cached > source {
                ThumbStep::ReadCache(self.cache_path.clone())
            } else {
                ThumbStep::AcquirePermit
            },
            ThumbEvent::Times(_, _) => ThumbStep::AcquirePermit,
            ThumbEvent::Read(r) => ThumbStep::Done(r),
            ThumbEvent::Permit(Ok(_)) => ThumbStep::Generate(self.source.clone(), self.size),
            ThumbEvent::Permit(Err(e)) => ThumbStep::Done(Err(e)),
            ThumbEvent::Generated(Ok(Ok(bytes))) => ThumbStep::Store(
                self.cache_path.clone(),
                bytes,
            ),
            ThumbEvent::Generated(Ok(Err(e))) => ThumbStep::Done(Err(e)),
            ThumbEvent::Generated(Err(e)) => ThumbStep::Done(Err(e)),
            ThumbEvent::Stored => match step {
                ThumbStep::Store(_, bytes) => ThumbStep::Done(Ok(bytes)),
                step => step,
            },
        }
    }
}

/// Begins a request for the thumbnail of an image.
pub fn get_or_create(
    source: &CanonicalPath,
    cache_dir: &FilePath,
    dir_idx: usize,
    relative_path: &str,
    size: u32,
) -> (r: ThumbJob)
    ensures
        r.source@ == source@,
        r.cache_path@ == cache_path_of(cache_dir@, dir_idx as nat, relative_path@),
        r.size == size,
{
    ThumbJob {
        source: source.clone(),
        cache_path: thumb_cache_path(cache_dir, dir_idx, relative_path),
        size,
    }
}

// --- Answering ---

/// Begins to answer a request for the thumbnail of an image, as found.
pub fn serve_thumb(app: &AppState, dir_idx: usize, found: &Option<ImageFile>) -> (r: Result<
    ThumbJob,
    Reply,
>)
    ensures
        match (*found, r) {
            (Some(f), Ok(job)) => {
                &&& job.source@ == f.full@
                &&& job.cache_path@ == cache_path_of(
                    app.config.server.cache_dir@,
                    dir_idx as nat,
                    f.relative@,
                )
                &&& job.size == app.config.server.thumb_size
            },
            (None, Err(reply)) => reply@ == reply::status_reply(404),
            _ => false,
        },
{
    match found {
        Some(f) => Ok(
            get_or_create(
                &f.full,
                &app.config.server.cache_dir,
                dir_idx,
                f.relative.as_str(),
                app.config.server.thumb_size,
            ),
        ),
        None => Err(Reply::empty(404)),
    }
}

/// The answer with a thumbnail, or to say that there is none.
pub open spec fn thumb_reply_view(result: Result<Seq<u8>, Seq<char>>) -> ReplyView {
    match result {
        Ok(bytes) => ReplyView {
            status: 200,
            headers: seq![
                ("content-type"@, "image/jpeg"@),
                ("cache-control"@, "public, max-age=86400"@),
            ],
            body: BodyView::Bytes(bytes),
        },
        Err(_) => reply::status_reply(500),
    }
}

/// Answers with a thumbnail, or says that there is none.
pub fn thumb_reply(result: Result<Vec<u8>, String>) -> (r: Reply)
    ensures
        r@ == thumb_reply_view(bytes_result(result)),
{
    match result {
        Ok(bytes) => {
            let mut headers: Vec<(&'static str, String)> = Vec::new();
            headers.push(("content-type", "image/jpeg".to_string()));
            headers.push(("cache-control", "public, max-age=86400".to_string()));
            let r = Reply { status: 200, headers, body: ReplyBody::Bytes(bytes) };
            assert(r@.headers =~= thumb_reply_view(Ok(bytes@)).headers);
            assert(r@ =~= thumb_reply_view(Ok(bytes@)));
            r
        },
        Err(_) => Reply::empty(500),
    }
}

// --- Making a thumbnail ---

/// A picture in memory.
#[verifier::external_type_specification]
#[verifier::external_body]
pub struct ExDynamicImage(image::DynamicImage);

/// What `DynamicImage::width` gives.
pub uninterp spec fn pixel_width(img: image::DynamicImage) -> u32;

/// What `DynamicImage::height` gives.
pub uninterp spec fn pixel_height(img: image::DynamicImage) -> u32;

/// What `DynamicImage::color` and `ColorType::bytes_per_pixel` give.
pub uninterp spec fn pixel_bytes(img: image::DynamicImage) -> u8;

/// What `DynamicImage::resize` gives with the triangle filter.
pub uninterp spec fn resized(
    img: image::DynamicImage,
    width: u32,
    height: u32,
) -> image::DynamicImage;

/// What `DynamicImage::write_to` writes for JPEG of the given quality, or the
/// text of the error.
pub uninterp spec fn jpeg_of(img: image::DynamicImage, quality: u8) -> Result<Seq<u8>, Seq<char>>;

/// Calls `DynamicImage::width`.
#[verifier::external_body]
fn width(img: &image::DynamicImage) -> (r: u32)
    ensures
        r == pixel_width(*img),
{
    img.width()
}

/// Calls `DynamicImage::height`.
#[verifier::external_body]
fn height(img: &image::DynamicImage) -> (r: u32)
    ensures
        r == pixel_height(*img),
{
    img.height()
}

/// Calls `ColorType::bytes_per_pixel` on what `DynamicImage::color` gives.
#[verifier::external_body]
fn bytes_per_pixel(img: &image::DynamicImage) -> (r: u8)
    ensures
        r == pixel_bytes(*img),
{
    img.color().bytes_per_pixel()
}

/// The most that a side of length `side` can have once the longer side, of
/// length `longest`, is brought to `size`: its share rounded up, and one pixel at
/// least.
pub open spec fn most_of_side(side: nat, longest: nat, size: nat) -> nat {
    if longest == 0 || size * side == 0 {
        1
    } else {
        ((size * side + longest - 1) / longest as int) as nat
    }
}

/// The longer one of two sides.
pub open spec fn longer_of(width: nat, height: nat) -> nat {
    if width >= height {
        width
    } else {
        height
    }
}

/// Whether there can be buffers to resize a picture in to fit a square of the
/// given size.
///
/// A picture that has the size already is copied. Any other is resampled, which
/// goes through a buffer of the old width and the new height, of 16 bytes for a
/// pixel, and into one of the new size: making one that is larger than any buffer
/// may be panics.
pub open spec fn buffers_fit(width: nat, height: nat, bytes: nat, size: nat) -> bool {
    let longest = longer_of(width, height);
    let new_width = most_of_side(width, longest, size);
    let new_height = most_of_side(height, longest, size);
    ||| width > 0 && height > 0 && longest == size
    ||| {
        &&& 16 * (width * new_height) <= isize::MAX
        &&& bytes * (new_width * new_height) <= isize::MAX
    }
}

/// Whether pixels are told apart in resizing.
///
/// Resampling weighs them in single precision, which cannot tell them apart where
/// the square is over 8 388 608 pixels wide and the picture over 1 048 576 pixels
/// long, or both are over 4 194 304. There the weights of a pixel may sum to zero,
/// and rounding the quotient panics.
pub open spec fn weights_hold(width: nat, height: nat, size: nat) -> bool {
    let longest = longer_of(width, height);
    ||| width > 0 && height > 0 && longest == size
    ||| size <= 0x40_0000
    ||| longest <= 0x10_0000
    ||| size <= 0x80_0000 && longest <= 0x40_0000
}

/// Whether a picture is sure to be resized to fit a square of the given size.
pub open spec fn can_resize(img: image::DynamicImage, size: u32) -> bool {
    &&& has_buffers(img, size)
    &&& weights_hold(pixel_width(img) as nat, pixel_height(img) as nat, size as nat)
}

/// Whether there can be buffers to resize a picture in.
pub open spec fn has_buffers(img: image::DynamicImage, size: u32) -> bool {
    buffers_fit(
        pixel_width(img) as nat,
        pixel_height(img) as nat,
        pixel_bytes(img) as nat,
        size as nat,
    )
}

/// Whether the sides of a picture are scaled alike, to the pixel: the longer one
/// is now `size`, and the shorter one within one pixel of its share, or `size`
/// too where they were the same.
pub open spec fn keeps_aspect(
    long: nat,
    short: nat,
    new_long: nat,
    new_short: nat,
    size: nat,
) -> bool {
    &&& new_long == size
    &&& new_short >= 1
    &&& short == long ==> new_short == size
    &&& new_short * long <= size * short + long
    &&& size * short <= new_short * long + long
}

/// Whether `small` is what `img` is to become in a square of the given size.
/// Neither side is longer than the square, or than one pixel. And where neither
/// the longer side nor the square is empty the longer side becomes as long as the
/// square, and the shorter one keeps the aspect ratio and is not empty.
pub open spec fn fits_square(
    img: image::DynamicImage,
    small: image::DynamicImage,
    size: u32,
) -> bool {
    let w = pixel_width(img) as nat;
    let h = pixel_height(img) as nat;
    let new_w = pixel_width(small) as nat;
    let new_h = pixel_height(small) as nat;
    &&& new_w <= size || new_w == 1
    &&& new_h <= size || new_h == 1
    &&& size > 0 && (w > 0 || h > 0) ==> if w >= h {
        keeps_aspect(w, h, new_w, new_h, size as nat)
    } else {
        keeps_aspect(h, w, new_h, new_w, size as nat)
    }
}

/// Calls `DynamicImage::resize` with the triangle filter. The new picture fits
/// the square and keeps the aspect ratio. Where resizing is not sure the call may
/// panic.
#[verifier::external_body]
fn resize(img: &image::DynamicImage, size: u32) -> (r: image::DynamicImage)
    requires
        can_resize(*img, size),
    ensures
        r == resized(*img, size, size),
        fits_square(*img, r, size),
{
    img.resize(size, size, image::imageops::FilterType::Triangle)
}

/// Whether a file is a baseline JPEG file, with the frame header right after the
/// JFIF header, of a picture of the given width and height.
pub open spec fn is_jpeg(file: Seq<u8>, width: int, height: int) -> bool {
    &&& file.len() > 29
    &&& file[0] == 0xff && file[1] == 0xd8
    &&& file[20] == 0xff && file[21] == 0xc0
    &&& 256 * file[25] + file[26] == height
    &&& 256 * file[27] + file[28] == width
}

/// Calls `DynamicImage::write_to` to write JPEG into memory. What is written is a
/// function of the picture and the quality, and is a JPEG file of the picture's
/// width and height.
#[verifier::external_body]
fn encode_jpeg(img: &image::DynamicImage, quality: u8) -> (r: Result<Vec<u8>, String>)
    ensures
        bytes_result(r) == jpeg_of(*img, quality),
        r matches Ok(file) ==> is_jpeg(file@, pixel_width(*img) as int, pixel_height(*img) as int),
{
    let mut buf: Vec<u8> = Vec::new();
    let mut cursor = std::io::Cursor::new(&mut buf);
    match img.write_to(&mut cursor, image::ImageOutputFormat::Jpeg(quality)) {
        Ok(()) => Ok(buf),
        Err(e) => Err(e.to_string()),
    }
}

/// The thumbnail of a picture: the picture resized to fit the square, in JPEG
/// of quality 70.
pub open spec fn thumbnail_of(img: image::DynamicImage, size: u32) -> Result<Seq<u8>, Seq<char>> {
    match jpeg_of(resized(img, size, size), 70) {
        Ok(bytes) => Ok(bytes),
        Err(e) => Err("failed to encode thumbnail: "@ + e),
    }
}

/// Whether `result`, where it is a file, is a JPEG file of what a picture is to
/// become in the square.
pub open spec fn is_thumbnail(
    img: image::DynamicImage,
    size: u32,
    result: Result<Seq<u8>, Seq<char>>,
) -> bool {
    let small = resized(img, size, size);
    &&& fits_square(img, small, size)
    &&& result matches Ok(file) ==> is_jpeg(
        file,
        pixel_width(small) as int,
        pixel_height(small) as int,
    )
}

/// Makes the thumbnail of a picture: a JPEG file that fits the square.
pub fn make_thumbnail(img: &image::DynamicImage, size: u32) -> (r: Result<Vec<u8>, String>)
    requires
        can_resize(*img, size),
    ensures
        bytes_result(r) == thumbnail_of(*img, size),
        is_thumbnail(*img, size, bytes_result(r)),
{
    let thumb = resize(img, size);
    match encode_jpeg(&thumb, 70) {
        Ok(bytes) => Ok(bytes),
        Err(e) => Err(encoding_error(e.as_str())),
    }
}

/// The outcome for an image as opened, or for the text of the error: none where
/// there can be no buffers to resize the picture in.
///
/// Where the picture has pixels that resizing may not tell apart, both it and what
/// it would become are too long for JPEG. Then the error is that of encoding the
/// picture itself, which is the same for all pictures of a kind that are too long.
pub open spec fn outcome_of(
    opened: Result<image::DynamicImage, Seq<char>>,
    size: u32,
) -> Option<Result<Seq<u8>, Seq<char>>> {
    match opened {
        Ok(img) => if can_resize(img, size) {
            Some(thumbnail_of(img, size))
        } else if has_buffers(img, size) {
            Some(Err("failed to encode thumbnail: "@ + jpeg_of(img, 70)->Err_0))
        } else {
            None
        },
        Err(e) => Some(Err("failed to open image: "@ + e)),
    }
}

/// An optional result in specifications.
pub open spec fn outcome_view(r: Option<Result<Vec<u8>, String>>) -> Option<
    Result<Seq<u8>, Seq<char>>,
> {
    match r {
        Some(x) => Some(bytes_result(x)),
        None => None,
    }
}

/// An opened image in specifications, or the text of the error.
pub open spec fn picture_result(r: Result<image::DynamicImage, String>) -> Result<
    image::DynamicImage,
    Seq<char>,
> {
    match r {
        Ok(img) => Ok(img),
        Err(e) => Err(e@),
    }
}

/// The most that a side can have once the longer side is brought to `size`.
fn most_of(side: u32, longest: u32, size: u32) -> (r: u128)
    requires
        side <= longest,
    ensures
        r == most_of_side(side as nat, longest as nat, size as nat),
        r <= 0xffff_ffff,
{
    let (a, b, c): (u128, u128, u128) = (size as u128, side as u128, longest as u128);
    assert(a * b <= a * c <= 0xffff_ffff * 0xffff_ffff) by (nonlinear_arith)
        requires
            a <= 0xffff_ffff,
            b <= c <= 0xffff_ffff,
    ;
    if longest == 0 || a * b == 0 {
        1
    } else {
        assert((a * b + c - 1) / (c as int) <= a) by (nonlinear_arith)
            requires
                a * b <= a * c,
                c > 0,
        ;
        (a * b + c - 1) / c
    }
}

/// Whether there can be buffers to resize a picture of the given width, height and
/// bytes for a pixel in, to fit a square of the given size.
pub fn check_buffers(width: u32, height: u32, bytes: u8, size: u32) -> (r: bool)
    ensures
        r == buffers_fit(width as nat, height as nat, bytes as nat, size as nat),
{
    let longest: u32 = if width >= height {
        width
    } else {
        height
    };
    let (w, b): (u128, u128) = (width as u128, bytes as u128);
    let new_width: u128 = most_of(width, longest, size);
    let new_height: u128 = most_of(height, longest, size);
    let most: u128 = isize::MAX as u128;
    let product: u128 = 0xffff_ffff * 0xffff_ffff;
    assert(w * new_height <= product) by (nonlinear_arith)
        requires
            w <= 0xffff_ffff,
            new_height <= 0xffff_ffff,
            product == 0xffff_ffff * 0xffff_ffff,
    ;
    assert(new_width * new_height <= product) by (nonlinear_arith)
        requires
            new_width <= 0xffff_ffff,
            new_height <= 0xffff_ffff,
            product == 0xffff_ffff * 0xffff_ffff,
    ;
    assert(b * (new_width * new_height) <= 255 * product) by (nonlinear_arith)
        requires
            b <= 255,
            new_width * new_height <= product,
    ;
    (width > 0 && height > 0 && longest == size) || (16 * (w * new_height) <= most && b * (new_width
        * new_height) <= most)
}

/// Whether pixels are told apart in resizing a picture of the given width and
/// height to fit a square of the given size.
pub fn check_weights(width: u32, height: u32, size: u32) -> (r: bool)
    ensures
        r == weights_hold(width as nat, height as nat, size as nat),
{
    let longest: u32 = if width >= height {
        width
    } else {
        height
    };
    (width > 0 && height > 0 && longest == size) || size <= 0x40_0000 || longest <= 0x10_0000 || (
    size <= 0x80_0000 && longest <= 0x40_0000)
}

/// The error for a thumbnail that could not be encoded.
fn encoding_error(e: &str) -> (r: String)
    ensures
        r@ == "failed to encode thumbnail: "@ + e@,
{
    let mut message: String = "failed to encode thumbnail: ".to_string();
    message.append(e);
    message
}

/// Makes the thumbnail of an image as opened; none where there can be no buffers
/// to resize the picture in.
///
/// What opening the image gives is an argument, for `image::open` reads the file
/// itself. It also panics on some files, and which ones only decoding the whole
/// file tells.
pub fn generate(opened: Result<image::DynamicImage, String>, size: u32) -> (r: Option<
    Result<Vec<u8>, String>,
>)
    ensures
        outcome_view(r) == outcome_of(picture_result(opened), size),
        opened matches Ok(img) ==> r matches Some(Ok(file)) ==> is_thumbnail(
            img,
            size,
            Ok(file@),
        ),
{
    match opened {
        Ok(img) => {
            let (w, h): (u32, u32) = (width(&img), height(&img));
            if !check_buffers(w, h, bytes_per_pixel(&img), size) {
                None
            } else if check_weights(w, h, size) {
                Some(make_thumbnail(&img, size))
            } else {
                // No JPEG file is that long.
                match encode_jpeg(&img, 70) {
                    Ok(_) => {
                        assert(false);
                        None
                    },
                    Err(e) => Some(Err(encoding_error(e.as_str()))),
                }
            }
        },
        Err(e) => {
            let mut message: String = "failed to open image: ".to_string();
            message.append(e.as_str());
            Some(Err(message))
        },
    }
}

// --- Laws ---

/// A cached thumbnail is used just where it is newer than its image; in every
/// other case a thumbnail is made, and only with leave to make one.
pub proof fn cache_is_used_when_fresh(
    job: ThumbJob,
    there: bool,
    source: Option<i128>,
    cached: Option<i128>,
)
    ensures
        ({
            let first = job.next_step(
                ThumbStepView::CheckCache(job.cache_path@),
                ThumbEvent::Exists(there),
            );
            let second = if there {
                job.next_step(first, ThumbEvent::Times(source, cached))
            } else {
                first
            };
            &&& second == (if there && is_fresh(source, cached) {
                ThumbStepView::ReadCache(job.cache_path@)
            } else {
                ThumbStepView::AcquirePermit
            })
            &&& job.next_step(ThumbStepView::AcquirePermit, ThumbEvent::Permit(Ok(())))
                == ThumbStepView::Generate(job.source@, job.size)
        }),
{
}

/// The cache is written only once a thumbnail has been made, with that thumbnail
/// and at its place; and the thumbnail that was written is the answer. So an
/// attempt that fails leaves the cache as it was.
pub proof fn only_thumbnails_are_stored(job: ThumbJob, step: ThumbStepView, event: ThumbEvent)
    requires
        answers(step, event),
        job.next_step(step, event) is Store,
    ensures
        event matches ThumbEvent::Generated(Ok(Ok(bytes))) && job.next_step(step, event)
            == ThumbStepView::Store(job.cache_path@, bytes@) && job.next_step(
            job.next_step(step, event),
            ThumbEvent::Stored,
        ) == ThumbStepView::Done(Ok(bytes@)),
{
}

/// A square picture becomes a square thumbnail of the size asked for, and any
/// other keeps its longer side the longer one.
pub proof fn thumbnails_keep_their_shape(
    img: image::DynamicImage,
    small: image::DynamicImage,
    size: u32,
)
    requires
        fits_square(img, small, size),
        size > 0,
        pixel_width(img) > 0,
        pixel_height(img) > 0,
    ensures
        1 <= pixel_width(small) <= size,
        1 <= pixel_height(small) <= size,
        pixel_width(img) == pixel_height(img) ==> pixel_width(small) == size && pixel_height(small)
            == size,
        pixel_width(img) >= pixel_height(img) ==> pixel_width(small) >= pixel_height(small),
        pixel_width(img) <= pixel_height(img) ==> pixel_width(small) <= pixel_height(small),
{
}

/// Two byte strings without a `/`, each followed by a `/` and a rest, are the
/// same where the whole is.
proof fn same_before_slash(a: Seq<u8>, x: Seq<u8>, b: Seq<u8>, y: Seq<u8>)
    requires
        !a.contains(path::SLASH),
        !b.contains(path::SLASH),
        a.push(path::SLASH) + x == b.push(path::SLASH) + y,
    ensures
        a == b,
        x == y,
{
    let s = a.push(path::SLASH) + x;
    assert(s[a.len() as int] == path::SLASH);
    assert(s[b.len() as int] == path::SLASH) by {
        assert((b.push(path::SLASH) + y)[b.len() as int] == path::SLASH);
    }
    if a.len() < b.len() {
        assert((b.push(path::SLASH) + y)[a.len() as int] == b[a.len() as int]);
        assert(b.contains(path::SLASH));
    }
    if b.len() < a.len() {
        assert(s[b.len() as int] == a[b.len() as int]);
        assert(a.contains(path::SLASH));
    }
    assert(a =~= s.take(a.len() as int));
    assert(b =~= (b.push(path::SLASH) + y).take(b.len() as int));
    assert(x =~= s.skip(a.len() as int + 1));
    assert(y =~= (b.push(path::SLASH) + y).skip(b.len() as int + 1));
}

/// The bytes of a number in decimal hold no `/`.
proof fn number_bytes(n: nat)
    ensures
        encode_utf8(text::decimal(n)).len() > 0,
        !encode_utf8(text::decimal(n)).contains(path::SLASH),
{
    text::decimal_is_digits(n);
    let d = text::decimal(n);
    is_ascii_chars_encode_utf8(d);
    assert forall|i: int| 0 <= i < d.len() implies encode_utf8(d)[i] != path::SLASH by {
        assert('0' <= d[i] <= '9');
        assert(encode_utf8(d)[i] == d[i] as u8);
    }
}

/// The cache path of a relative path, written out.
proof fn cache_path_written_out(cache_dir: Seq<u8>, dir_idx: nat, relative: Seq<char>)
    requires
        !path::is_absolute(encode_utf8(relative)),
    ensures
        cache_path_of(cache_dir, dir_idx, relative) == path::joined(
            cache_dir,
            encode_utf8("thumbs"@),
        ).push(path::SLASH) + (encode_utf8(text::decimal(dir_idx)).push(path::SLASH) + encode_utf8(
            relative,
        )),
{
    reveal_strlit("thumbs");
    is_ascii_chars_encode_utf8("thumbs"@);
    let t = encode_utf8("thumbs"@);
    assert(t.len() == 6);
    assert(t[5] == 's' as u8);
    let c = path::joined(cache_dir, t);
    assert(c.last() == t[5]);
    let d = encode_utf8(text::decimal(dir_idx));
    number_bytes(dir_idx);
    assert(d.contains(d[0]));
    assert(d.contains(d[d.len() - 1]));
    assert(path::joined(c, d) =~= c.push(path::SLASH) + d);
    assert(path::joined(c, d).last() == d[d.len() - 1]);
    assert(cache_path_of(cache_dir, dir_idx, relative) =~= c.push(path::SLASH) + (d.push(
        path::SLASH,
    ) + encode_utf8(relative)));
}

/// Different images have different places in the cache: images in different
/// configured directories, and images with different paths below theirs.
pub proof fn cache_paths_differ(
    cache_dir: Seq<u8>,
    i: nat,
    relative_i: Seq<char>,
    j: nat,
    relative_j: Seq<char>,
)
    requires
        !path::is_absolute(encode_utf8(relative_i)),
        !path::is_absolute(encode_utf8(relative_j)),
        i != j || relative_i != relative_j,
    ensures
        cache_path_of(cache_dir, i, relative_i) != cache_path_of(cache_dir, j, relative_j),
{
    if cache_path_of(cache_dir, i, relative_i) == cache_path_of(cache_dir, j, relative_j) {
        cache_path_written_out(cache_dir, i, relative_i);
        cache_path_written_out(cache_dir, j, relative_j);
        let c = path::joined(cache_dir, encode_utf8("thumbs"@)).push(path::SLASH);
        let di = encode_utf8(text::decimal(i));
        let dj = encode_utf8(text::decimal(j));
        let ri = encode_utf8(relative_i);
        let rj = encode_utf8(relative_j);
        let p = cache_path_of(cache_dir, i, relative_i);
        assert(p.skip(c.len() as int) =~= di.push(path::SLASH) + ri);
        assert(p.skip(c.len() as int) =~= dj.push(path::SLASH) + rj);
        number_bytes(i);
        number_bytes(j);
        same_before_slash(di, ri, dj, rj);
        text::encoding_is_injective(text::decimal(i), text::decimal(j));
        text::encoding_is_injective(relative_i, relative_j);
        text::decimal_reads_back(i);
        text::decimal_reads_back(j);
    }
}

/// The place of a thumbnail in the cache: in the directory `thumbs`, below it in
/// one that is called by the number of the configured directory, and there under
/// the path of the image.
pub proof fn cache_path_reads(cache_dir: Seq<u8>, dir_idx: nat, relative: Seq<char>)
    requires
        cache_dir.len() > 0,
        cache_dir.last() != '/' as u8,
        encode_utf8(relative).len() == 0 || encode_utf8(relative)[0] != '/' as u8,
    ensures
        ({
            let p = cache_path_of(cache_dir, dir_idx, relative);
            exists|digits: Seq<char>|
                {
                    &&& #[trigger] text::decimal_value(digits) == dir_idx
                    &&& p == cache_dir + encode_utf8("/thumbs/"@ + digits + "/"@ + relative)
                    &&& forall|i: int| 0 <= i < digits.len() ==> '0' <= #[trigger] digits[i] <= '9'
                }
        }),
{
    let digits = text::decimal(dir_idx);
    text::decimal_reads_back(dir_idx);
    text::decimal_is_digits(dir_idx);
    cache_path_written_out(cache_dir, dir_idx, relative);
    reveal_strlit("thumbs");
    reveal_strlit("/thumbs/");
    reveal_strlit("/");
    is_ascii_chars_encode_utf8("thumbs"@);
    is_ascii_chars_encode_utf8("/thumbs/"@);
    is_ascii_chars_encode_utf8("/"@);
    let t = encode_utf8("thumbs"@);
    let around = encode_utf8("/thumbs/"@);
    assert(around =~= seq![path::SLASH] + t + seq![path::SLASH]);
    assert(encode_utf8("/"@) =~= seq![path::SLASH]);
    text::encoding_of_concatenation("/thumbs/"@ + digits + "/"@, relative);
    text::encoding_of_concatenation("/thumbs/"@ + digits, "/"@);
    text::encoding_of_concatenation("/thumbs/"@, digits);
    assert(path::joined(cache_dir, t) =~= cache_dir.push(path::SLASH) + t);
    assert(cache_path_of(cache_dir, dir_idx, relative) =~= cache_dir + encode_utf8(
        "/thumbs/"@ + digits + "/"@ + relative,
    ));
}

/// Where the times of the image and of its cached thumbnail are known, the cache is
/// read if the thumbnail is later than the image, and a thumbnail is made if it is
/// not. Where one is not known, a thumbnail is made.
pub proof fn stale_thumbnails_are_made_anew(
    job: ThumbJob,
    step: ThumbStepView,
    s: i128,
    c: i128,
    next: ThumbStep,
)
    requires
        next@ == job.next_step(step, ThumbEvent::Times(Some(s), Some(c))),
    ensures
        c > s <==> (next matches ThumbStep::ReadCache(p) && p@ == job.cache_path@),
        c <= s <==> next is AcquirePermit,
        job.next_step(step, ThumbEvent::Times(None, Some(c))) is AcquirePermit,
        job.next_step(step, ThumbEvent::Times(Some(s), None)) is AcquirePermit,
        job.next_step(step, ThumbEvent::Times(None, None)) is AcquirePermit,
{
}

/// An image that is touched later, or a thumbnail that was cached earlier, is
/// never served from the cache where it was not so before.
pub proof fn later_images_need_later_thumbnails(
    job: ThumbJob,
    step: ThumbStepView,
    s: i128,
    c: i128,
    later: i128,
    earlier: i128,
)
    requires
        s <= later,
        earlier <= c,
        job.next_step(step, ThumbEvent::Times(Some(s), Some(c))) is AcquirePermit,
    ensures
        job.next_step(step, ThumbEvent::Times(Some(later), Some(earlier))) is AcquirePermit,
{
}

/// What each outcome leads to. A thumbnail that is in the cache is compared with
/// its image, and one that is not is made; what was read or why it could not be is
/// the answer; with leave the image of the request is opened and made small in the
/// size of the request, and without it the reason is the answer.
pub proof fn outcomes_lead_on(job: ThumbJob, step: ThumbStepView, event: ThumbEvent, next: ThumbStep)
    requires
        next@ == job.next_step(step, event),
    ensures
        match event {
            ThumbEvent::Exists(true) => next matches ThumbStep::CompareTimes(source, cache)
                && source@ == job.source@ && cache@ == job.cache_path@,
            ThumbEvent::Exists(false) => next is AcquirePermit,
            ThumbEvent::Times(_, _) => next is AcquirePermit || next is ReadCache,
            ThumbEvent::Read(Ok(bytes)) => next matches ThumbStep::Done(Ok(b)) && b@ == bytes@,
            ThumbEvent::Read(Err(e)) => next matches ThumbStep::Done(Err(t)) && t@ == e@,
            ThumbEvent::Permit(Ok(_)) => next matches ThumbStep::Generate(source, size)
                && source@ == job.source@ && size == job.size,
            ThumbEvent::Permit(Err(e)) => next matches ThumbStep::Done(Err(t)) && t@ == e@,
            ThumbEvent::Generated(Ok(Ok(bytes))) => next matches ThumbStep::Store(p, b) && p@
                == job.cache_path@ && b@ == bytes@,
            ThumbEvent::Generated(Ok(Err(e))) => next matches ThumbStep::Done(Err(t)) && t@ == e@,
            ThumbEvent::Generated(Err(e)) => next matches ThumbStep::Done(Err(t)) && t@ == e@,
            ThumbEvent::Stored => step matches ThumbStepView::Store(_, bytes)
                ==> next matches ThumbStep::Done(Ok(b)) && b@ == bytes,
        },
{
}

/// The share of a side rounded up is the least whole number that is no less than
/// the share, and one at least.
pub proof fn shares_are_rounded_up(side: nat, longest: nat, size: nat, share: nat)
    requires
        longest > 0,
        share >= 1,
        size * side <= share * longest,
        share == 1 || (share - 1) * longest < size * side,
    ensures
        most_of_side(side, longest, size) == share,
{
    if size * side > 0 {
        let n = size * side + longest - 1;
        assert(n / longest as int == share) by (nonlinear_arith)
            requires
                n == size * side + longest - 1,
                longest > 0,
                size * side > 0,
                size * side <= share * longest,
                share == 1 || (share - 1) * longest < size * side,
        ;
    }
}

/// Whether buffers fit is a matter of width, height, bytes for a pixel and size:
/// where the picture does not have the size already, neither 16 bytes for each
/// pixel of the old width and the new height nor the bytes of the new picture may
/// be more than a buffer holds, the new sides being the shares rounded up.
pub proof fn what_buffers_take(
    width: nat,
    height: nat,
    bytes: nat,
    size: nat,
    longest: nat,
    new_width: nat,
    new_height: nat,
)
    requires
        longest > 0,
        longest == width || longest == height,
        longest >= width,
        longest >= height,
        new_width >= 1,
        new_height >= 1,
        size * width <= new_width * longest,
        size * height <= new_height * longest,
        new_width == 1 || (new_width - 1) * longest < size * width,
        new_height == 1 || (new_height - 1) * longest < size * height,
    ensures
        buffers_fit(width, height, bytes, size) <==> (width > 0 && height > 0 && longest == size)
            || (16 * (width * new_height) <= isize::MAX && bytes * (new_width * new_height)
            <= isize::MAX),
{
    shares_are_rounded_up(width, longest, size, new_width);
    shares_are_rounded_up(height, longest, size, new_height);
    assert(longer_of(width, height) == longest);
}

/// An empty picture has buffers in every size.
pub proof fn empty_pictures_have_buffers(bytes: nat, size: nat)
    requires
        bytes <= isize::MAX,
    ensures
        buffers_fit(0, 0, bytes, size),
{
    assert(bytes * (1nat * 1nat) == bytes) by (nonlinear_arith);
}

/// A picture and one of the same pixels on its side need the same weights, and
/// what is smaller is weighed where what is larger is.
pub proof fn weights_go_by_the_longer_side(width: nat, height: nat, size: nat)
    ensures
        weights_hold(width, height, size) == weights_hold(height, width, size),
        size <= 4_194_304 ==> weights_hold(width, height, size),
        width <= 1_048_576 && height <= 1_048_576 ==> weights_hold(width, height, size),
        size <= 8_388_608 && width <= 4_194_304 && height <= 4_194_304 ==> weights_hold(
            width,
            height,
            size,
        ),
        width > 0 && height > 0 && width <= size && height <= size && (width == size || height
            == size) ==> weights_hold(width, height, size),
        weights_hold(width, height, size) && size > 8_388_608 ==> (width <= 1_048_576 && height
            <= 1_048_576) || width == size || height == size,
        weights_hold(width, height, size) && size > 4_194_304 ==> (width <= 4_194_304 && height
            <= 4_194_304) || width == size || height == size,
{
}

/// Every picture of common size has buffers and weights: one with sides up to
/// 65 535 pixels, in a square of up to 8 000, whatever its orientation.
pub proof fn common_pictures_can_be_resized(img: image::DynamicImage, size: u32)
    requires
        isize::MAX >= 0x7fff_ffff_ffff_ffff,
        pixel_width(img) <= 65_535,
        pixel_height(img) <= 65_535,
        pixel_bytes(img) <= 16,
        size <= 8_000,
    ensures
        can_resize(img, size),
{
    let w = pixel_width(img) as nat;
    let h = pixel_height(img) as nat;
    let b = pixel_bytes(img) as nat;
    let n = size as nat;
    let longest = longer_of(w, h);
    let nw = most_of_side(w, longest, n);
    let nh = most_of_side(h, longest, n);
    share_is_no_more(w, longest, n);
    share_is_no_more(h, longest, n);
    assert(16 * (w * nh) <= 16 * (65_535 * 8_001)) by (nonlinear_arith)
        requires
            w <= 65_535,
            nh <= 8_001,
    ;
    assert(b * (nw * nh) <= 16 * (8_001 * 8_001)) by (nonlinear_arith)
        requires
            b <= 16,
            nw <= 8_001,
            nh <= 8_001,
    ;
}

/// A side's share is no more than the size, or one.
proof fn share_is_no_more(side: nat, longest: nat, size: nat)
    requires
        side <= longest,
    ensures
        most_of_side(side, longest, size) <= size || most_of_side(side, longest, size) == 1,
{
    if longest > 0 && size * side > 0 {
        assert((size * side + longest - 1) / longest as int <= size) by (nonlinear_arith)
            requires
                longest > 0,
                side <= longest,
        ;
    }
}

/// A picture that is sure to be resized has a thumbnail, whatever its width and
/// height: the picture resized to the square, in JPEG of quality 70, or the reason
/// why that could not be encoded.
pub proof fn every_picture_has_its_thumbnail(
    img: image::DynamicImage,
    size: u32,
    made: Option<Result<Vec<u8>, String>>,
)
    requires
        buffers_fit(
            pixel_width(img) as nat,
            pixel_height(img) as nat,
            pixel_bytes(img) as nat,
            size as nat,
        ),
        weights_hold(pixel_width(img) as nat, pixel_height(img) as nat, size as nat),
        outcome_view(made) == outcome_of(picture_result(Ok(img)), size),
    ensures
        match jpeg_of(resized(img, size, size), 70) {
            Ok(file) => made matches Some(Ok(b)) && b@ == file,
            Err(e) => made matches Some(Err(t)) && t@ == "failed to encode thumbnail: "@ + e,
        },
{
}

/// There is no outcome just where there can be no buffers. Where there can, but
/// resizing may not tell the pixels apart, the outcome is the error of encoding the
/// picture itself.
pub proof fn no_outcome_without_buffers(
    img: image::DynamicImage,
    size: u32,
    made: Option<Result<Vec<u8>, String>>,
)
    requires
        outcome_view(made) == outcome_of(picture_result(Ok(img)), size),
    ensures
        ({
            let w = pixel_width(img) as nat;
            let h = pixel_height(img) as nat;
            let fit = buffers_fit(w, h, pixel_bytes(img) as nat, size as nat);
            &&& made is None <==> !fit
            &&& fit && !weights_hold(w, h, size as nat) ==> (made matches Some(Err(t)) && (jpeg_of(
                img,
                70,
            ) matches Err(e) ==> t@ == "failed to encode thumbnail: "@ + e))
        }),
{
}

/// An image that could not be opened has the reason as its outcome.
pub proof fn unopened_images_say_why(
    e: String,
    size: u32,
    made: Option<Result<Vec<u8>, String>>,
)
    requires
        outcome_view(made) == outcome_of(picture_result(Err(e)), size),
    ensures
        made matches Some(Err(t)) && t@ == "failed to open image: "@ + e@,
{
}

/// A thumbnail is sent as it is, as JPEG to be kept for a day; and where there is
/// none the answer is an error and nothing else.
pub proof fn thumbnails_are_sent(result: Result<Vec<u8>, String>, r: Reply)
    requires
        r@ == thumb_reply_view(bytes_result(result)),
    ensures
        match result {
            Ok(bytes) => {
                &&& r.status == 200
                &&& r.body matches ReplyBody::Bytes(b) && b@ == bytes@
                &&& r.headers@.len() == 2
                &&& r.headers@[0].0@ == "content-type"@ && r.headers@[0].1@ == "image/jpeg"@
                &&& r.headers@[1].0@ == "cache-control"@ && r.headers@[1].1@
                    == "public, max-age=86400"@
            },
            Err(_) => r.status == 500 && r.headers@.len() == 0 && r.body is Empty,
        },
{
    reply::answers_hold_what_they_say(r);
    if let Ok(bytes) = result {
        let v = thumb_reply_view(Ok(bytes@)).headers;
        assert(r@.headers == v);
        assert(v[0].0 == "content-type"@ && v[1].0 == "cache-control"@);
    }
}

/// What has the width and height of the old picture in the new one: a picture that
/// fits the square keeps its proportions to the pixel.
pub proof fn thumbnails_keep_their_proportions(
    img: image::DynamicImage,
    small: image::DynamicImage,
    size: u32,
)
    requires
        fits_square(img, small, size),
        size > 0,
        pixel_width(img) > 0,
        pixel_height(img) > 0,
    ensures
        ({
            let w = pixel_width(img) as int;
            let h = pixel_height(img) as int;
            let nw = pixel_width(small) as int;
            let nh = pixel_height(small) as int;
            &&& w >= h ==> nw == size && nh * w <= size * h + w && size * h <= nh * w + w
            &&& h >= w ==> nh == size && nw * h <= size * w + h && size * w <= nw * h + h
        }),
{
}

/// The thumbnail of a picture is the picture resized to the square, in JPEG of
/// quality 70, or the reason why that could not be encoded.
pub proof fn thumbnails_are_small_jpeg_files(
    img: image::DynamicImage,
    size: u32,
    made: Result<Vec<u8>, String>,
)
    requires
        bytes_result(made) == thumbnail_of(img, size),
    ensures
        match jpeg_of(resized(img, size, size), 70) {
            Ok(file) => made matches Ok(b) && b@ == file,
            Err(e) => made matches Err(t) && t@ == "failed to encode thumbnail: "@ + e,
        },
{
}

/// A request begins with a look into the cache, at the thumbnail's place.
pub proof fn requests_begin_in_the_cache(job: ThumbJob, first: ThumbStep)
    requires
        first@ == ThumbStepView::CheckCache(job.cache_path@),
    ensures
        first matches ThumbStep::CheckCache(p) && p@ == job.cache_path@,
{
}

/// Each step but the last takes the outcomes of its own kind, whatever they are, and
/// no others.
pub proof fn steps_take_their_outcomes(step: ThumbStep, event: ThumbEvent)
    ensures
        answers(step@, event) <==> {
            ||| step is CheckCache && event is Exists
            ||| step is CompareTimes && event is Times
            ||| step is ReadCache && event is Read
            ||| step is AcquirePermit && event is Permit
            ||| step is Generate && event is Generated
            ||| step is Store && event is Stored
        },
{
}

} // verus!
