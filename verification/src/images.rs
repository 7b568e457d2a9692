//! The center images of the listed cards: which images are needed, how a
//! file's header tells its format, what to do to have each image as a JPEG in
//! the template workspace and in the cache, and the report of a run.

use vstd::prelude::*;

use crate::cards::{image_spec, CardDatabase, CardError};
use crate::text::{decimal, push_decimal, push_str, string_of};

verus! {

/// The formats a center image may have.
#[derive(Clone, Copy, Debug, PartialEq, Eq, Structural)]
pub enum ImageKind {
    Jpeg,
    Png,
}

/// The first eight bytes of every PNG file.
pub open spec fn png_header() -> Seq<u8> {
    seq![0x89u8, 0x50u8, 0x4eu8, 0x47u8, 0x0du8, 0x0au8, 0x1au8, 0x0au8]
}

/// The format that the first bytes of a file show. A file shorter than eight
/// bytes shows none; a JPEG starts with `FF D8`.
pub open spec fn image_kind_spec(header: Seq<u8>) -> Option<ImageKind> {
    if header.len() < 8 {
        None
    } else if header[0] == 0xffu8 && header[1] == 0xd8u8 {
        Some(ImageKind::Jpeg)
    } else if header.take(8) == png_header() {
        Some(ImageKind::Png)
    } else {
        None
    }
}

/// The format of a file that starts with `header`.
pub fn image_kind(header: &[u8]) -> (k: Option<ImageKind>)
    ensures
        k == image_kind_spec(header@),
{
    if header.len() < 8 {
        return None;
    }
    if header[0] == 0xff && header[1] == 0xd8 {
        return Some(ImageKind::Jpeg);
    }
    let png: [u8; 8] = [0x89, 0x50, 0x4e, 0x47, 0x0d, 0x0a, 0x1a, 0x0a];
    let mut i: usize = 0;
    while i < 8
        invariant
            i <= 8,
            header@.len() >= 8,
            !(header@[0] == 0xffu8 && header@[1] == 0xd8u8),
            png@ == png_header(),
            header@.take(i as int) == png_header().take(i as int),
        decreases 8 - i,
    {
        if header[i] != png[i] {
            assert(header@.take(8)[i as int] == header@[i as int]);
            assert(header@.take(8) != png_header());
            return None;
        }
        assert(header@.take(i + 1) == header@.take(i as int).push(header@[i as int]));
        assert(png_header().take(i + 1) == png_header().take(i as int).push(png_header()[i as int]));
        i = i + 1;
    }
    assert(png_header().take(8) == png_header());
    Some(ImageKind::Png)
}

/// Why a downloaded file was refused.
#[derive(Clone, Copy, Debug, PartialEq, Eq, Structural)]
pub enum ImageError {
    NeitherJpegNorPng,
}

/// Accepts a download only if it is a JPEG or a PNG.
pub fn validate_image(kind: Option<ImageKind>) -> (r: Result<(), ImageError>)
    ensures
        r is Ok <==> kind is Some,
        r is Err ==> r == Err::<(), ImageError>(ImageError::NeitherJpegNorPng),
{
    match kind {
        Some(_) => Ok(()),
        None => Err(ImageError::NeitherJpegNorPng),
    }
}

/// Whether the cache must be written from a workspace image: unless it
/// already holds a JPEG.
pub fn cache_image(cached: Option<ImageKind>) -> (copy: bool)
    ensures
        copy == (cached != Some(ImageKind::Jpeg)),
{
    match cached {
        Some(ImageKind::Jpeg) => false,
        _ => true,
    }
}

/// How an image came to be in the workspace.
#[derive(Clone, Copy, Debug, PartialEq, Eq, Structural)]
pub enum Preparation {
    Downloaded,
    Converted,
    Restored,
    Reused,
}

/// What to do for one image, given what the workspace and the cache hold.
#[derive(Clone, Copy, Debug, PartialEq, Eq, Structural)]
pub enum ImagePlan {
    /// The workspace holds a JPEG: keep it, and write the cache from it.
    Reuse,
    /// The workspace holds a PNG: convert it to JPEG, then write the cache.
    ConvertAndReuse,
    /// The cache holds a JPEG: copy it into the workspace.
    Restore,
    /// The cache holds a PNG: convert it, then copy it into the workspace.
    ConvertAndRestore,
    /// Neither holds an image: download it into the cache, then copy it.
    Download,
}

/// The workspace is looked at first, then the cache.
pub open spec fn plan_spec(destination: Option<ImageKind>, cached: Option<ImageKind>) -> ImagePlan {
    match destination {
        Some(ImageKind::Jpeg) => ImagePlan::Reuse,
        Some(ImageKind::Png) => ImagePlan::ConvertAndReuse,
        None => match cached {
            Some(ImageKind::Jpeg) => ImagePlan::Restore,
            Some(ImageKind::Png) => ImagePlan::ConvertAndRestore,
            None => ImagePlan::Download,
        },
    }
}

/// Chooses what to do for one image.
pub fn plan_image(destination: Option<ImageKind>, cached: Option<ImageKind>) -> (p: ImagePlan)
    ensures
        p == plan_spec(destination, cached),
{
    match destination {
        Some(ImageKind::Jpeg) => ImagePlan::Reuse,
        Some(ImageKind::Png) => ImagePlan::ConvertAndReuse,
        None => match cached {
            Some(ImageKind::Jpeg) => ImagePlan::Restore,
            Some(ImageKind::Png) => ImagePlan::ConvertAndRestore,
            None => ImagePlan::Download,
        },
    }
}

pub open spec fn outcome_spec(plan: ImagePlan) -> Preparation {
    match plan {
        ImagePlan::Reuse => Preparation::Reused,
        ImagePlan::ConvertAndReuse => Preparation::Converted,
        ImagePlan::Restore => Preparation::Restored,
        ImagePlan::ConvertAndRestore => Preparation::Restored,
        ImagePlan::Download => Preparation::Downloaded,
    }
}

/// How the image counts once its plan was carried out.
pub fn outcome(plan: ImagePlan) -> (p: Preparation)
    ensures
        p == outcome_spec(plan),
{
    match plan {
        ImagePlan::Reuse => Preparation::Reused,
        ImagePlan::ConvertAndReuse => Preparation::Converted,
        ImagePlan::Restore => Preparation::Restored,
        ImagePlan::ConvertAndRestore => Preparation::Restored,
        ImagePlan::Download => Preparation::Downloaded,
    }
}

/// Whether a validated download must be converted before it is copied.
pub fn converts_download(kind: Option<ImageKind>) -> (convert: bool)
    ensures
        convert == (kind == Some(ImageKind::Png)),
{
    match kind {
        Some(ImageKind::Png) => true,
        _ => false,
    }
}

/// Only a PNG is ever converted: an image that the workspace already holds
/// as a JPEG is reused as it is, whatever the cache holds; an image counts
/// as converted exactly when the workspace held it as a PNG; and the cache
/// is converted only when the workspace holds nothing and the cache a PNG.
pub proof fn law_only_png_is_converted(destination: Option<ImageKind>, cached: Option<ImageKind>)
    ensures
        destination == Some(ImageKind::Jpeg) ==> plan_spec(destination, cached) == ImagePlan::Reuse
            && outcome_spec(plan_spec(destination, cached)) == Preparation::Reused,
        (outcome_spec(plan_spec(destination, cached)) == Preparation::Converted) <==> (destination
            == Some(ImageKind::Png)),
        plan_spec(destination, cached) == ImagePlan::ConvertAndRestore ==> destination is None
            && cached == Some(ImageKind::Png),
        plan_spec(destination, cached) == ImagePlan::Restore ==> destination is None && cached
            == Some(ImageKind::Jpeg),
        plan_spec(destination, cached) == ImagePlan::Reuse ==> destination == Some(ImageKind::Jpeg),
        plan_spec(destination, cached) == ImagePlan::ConvertAndReuse ==> destination == Some(
            ImageKind::Png,
        ),
{
}

/// An image is downloaded only when neither the workspace nor the cache
/// holds it as a JPEG or a PNG; whatever is held is used instead.
pub proof fn law_download_only_when_missing(
    destination: Option<ImageKind>,
    cached: Option<ImageKind>,
)
    ensures
        (plan_spec(destination, cached) == ImagePlan::Download) <==> (destination is None
            && cached is None),
        destination is Some ==> outcome_spec(plan_spec(destination, cached))
            != Preparation::Restored,
{
}

/// What the cache holds after a workspace image of format `source` was
/// stored in it (see `cache_image`): a JPEG already there is kept.
pub open spec fn stored_in_cache(source: Option<ImageKind>, cached: Option<ImageKind>) -> Option<
    ImageKind,
> {
    if cached != Some(ImageKind::Jpeg) {
        source
    } else {
        cached
    }
}

/// What a download holds once `converts_download` was acted on.
pub open spec fn after_download(downloaded: ImageKind) -> ImageKind {
    if downloaded == ImageKind::Png {
        ImageKind::Jpeg
    } else {
        downloaded
    }
}

/// The formats the workspace and the cache hold after the steps of `plan`
/// succeeded: copies keep the format, conversions give a JPEG, and a
/// download gives a file that validated as `downloaded`.
pub open spec fn after_plan(
    plan: ImagePlan,
    destination: Option<ImageKind>,
    cached: Option<ImageKind>,
    downloaded: ImageKind,
) -> (Option<ImageKind>, Option<ImageKind>) {
    match plan {
        ImagePlan::Reuse => (destination, stored_in_cache(destination, cached)),
        ImagePlan::ConvertAndReuse => (
            Some(ImageKind::Jpeg),
            stored_in_cache(Some(ImageKind::Jpeg), cached),
        ),
        ImagePlan::Restore => (cached, cached),
        ImagePlan::ConvertAndRestore => (Some(ImageKind::Jpeg), Some(ImageKind::Jpeg)),
        ImagePlan::Download => (
            Some(after_download(downloaded)),
            Some(after_download(downloaded)),
        ),
    }
}

/// Whatever the workspace and the cache held, once the chosen plan has
/// been carried out both hold the image as a JPEG.
pub proof fn law_every_plan_ends_in_jpeg(
    destination: Option<ImageKind>,
    cached: Option<ImageKind>,
    downloaded: ImageKind,
)
    ensures
        after_plan(plan_spec(destination, cached), destination, cached, downloaded) == (
            Some(ImageKind::Jpeg),
            Some(ImageKind::Jpeg),
        ),
{
}

/// The file name of a center image.
pub fn image_file_name(image_id: u32) -> (name: String)
    ensures
        name@ == decimal(image_id as nat) + ".jpg"@,
{
    let mut out: Vec<char> = Vec::new();
    push_decimal(&mut out, image_id as u64);
    push_str(&mut out, ".jpg");
    string_of(&out)
}

/// Where a center image is downloaded from.
pub fn image_url(image_id: u32) -> (url: String)
    ensures
        url@ == "https://images.ygoprodeck.com/images/cards_cropped/"@ + decimal(image_id as nat)
            + ".jpg"@,
{
    let mut out: Vec<char> = Vec::new();
    push_str(&mut out, "https://images.ygoprodeck.com/images/cards_cropped/");
    push_decimal(&mut out, image_id as u64);
    push_str(&mut out, ".jpg");
    string_of(&out)
}

// ---------------------------------------------------------------------------
// Converting a PNG to a JPEG
// ---------------------------------------------------------------------------

/// The quality at which center images are encoded as JPEG.
pub const JPEG_QUALITY: u8 = 90;

/// What `image::load_from_memory` decodes from `bytes`, converted to 8-bit
/// RGB: the width, the height and the pixels row by row; `None` where the
/// format is not recognised or decoding fails.
pub uninterp spec fn decoded_rgb8(bytes: Seq<u8>) -> Option<(u32, u32, Seq<u8>)>;

/// What `image`'s `JpegEncoder` writes for 8-bit RGB pixels of the given
/// size at the given quality; `None` where it fails.
pub uninterp spec fn jpeg_encoded(pixels: Seq<u8>, width: u32, height: u32, quality: u8) -> Option<
    Seq<u8>,
>;

/// Decodes an image with `image::load_from_memory` (which guesses the format
/// from the bytes) and converts it to plain values with
/// `DynamicImage::to_rgb8` and the buffer's `width`, `height` and
/// `into_raw`; the result is named by `decoded_rgb8` of the bytes. Nothing
/// is claimed of the pixels beyond that name.
#[verifier::external_body]
fn decode_rgb8(bytes: &[u8]) -> (r: Option<(u32, u32, Vec<u8>)>)
    ensures
        match r {
            Some(d) => decoded_rgb8(bytes@) == Some((d.0, d.1, d.2@)),
            None => decoded_rgb8(bytes@) is None,
        },
{
    let decoded = image::load_from_memory(bytes).ok()?;
    let rgb = decoded.to_rgb8();
    Some((rgb.width(), rgb.height(), rgb.into_raw()))
}

/// Encodes 8-bit RGB pixels with `JpegEncoder::new_with_quality` and
/// `JpegEncoder::encode` into a byte vector; the result is named by
/// `jpeg_encoded`. `encode` panics unless there are exactly three bytes per
/// pixel, which the precondition asks for.
#[verifier::external_body]
fn encode_jpeg(pixels: &[u8], width: u32, height: u32, quality: u8) -> (r: Option<Vec<u8>>)
    requires
        pixels@.len() == width * height * 3,
    ensures
        match r {
            Some(j) => jpeg_encoded(pixels@, width, height, quality) == Some(j@),
            None => jpeg_encoded(pixels@, width, height, quality) is None,
        },
{
    let mut out = Vec::new();
    image::codecs::jpeg::JpegEncoder::new_with_quality(&mut out, quality)
        .encode(pixels, width, height, image::ExtendedColorType::Rgb8)
        .ok()?;
    Some(out)
}

/// Why an image could not be converted.
#[derive(Clone, Copy, Debug, PartialEq, Eq, Structural)]
pub enum ConvertError {
    /// The bytes are not an image that can be decoded.
    Decode,
    /// The pixels could not be encoded as JPEG.
    Encode,
}

/// The JPEG of an image (a PNG, for center images): decoded, converted to
/// 8-bit RGB, and encoded at `JPEG_QUALITY`. A decoder gives three bytes
/// per pixel; pixels of another length are refused as undecodable.
pub fn convert_png_to_jpeg(bytes: &[u8]) -> (r: Result<Vec<u8>, ConvertError>)
    ensures
        match decoded_rgb8(bytes@) {
            None => r == Err::<Vec<u8>, ConvertError>(ConvertError::Decode),
            Some((w, h, p)) => if p.len() != w * h * 3 {
                r == Err::<Vec<u8>, ConvertError>(ConvertError::Decode)
            } else {
                match jpeg_encoded(p, w, h, JPEG_QUALITY) {
                    None => r == Err::<Vec<u8>, ConvertError>(ConvertError::Encode),
                    Some(j) => r matches Ok(v) && v@ == j,
                }
            },
        },
{
    let (width, height, pixels) = match decode_rgb8(bytes) {
        Some(decoded) => decoded,
        None => {
            return Err(ConvertError::Decode);
        },
    };
    let w = width as u128;
    let h = height as u128;
    assert(w * h <= 0xffff_ffff_u128 * 0xffff_ffff_u128) by (nonlinear_arith)
        requires
            w <= 0xffff_ffff,
            h <= 0xffff_ffff,
    ;
    if (pixels.len() as u128) != w * h * 3 {
        return Err(ConvertError::Decode);
    }
    match encode_jpeg(pixels.as_slice(), width, height, JPEG_QUALITY) {
        Some(jpeg) => Ok(jpeg),
        None => Err(ConvertError::Encode),
    }
}

// ---------------------------------------------------------------------------
// The images that the lists need
// ---------------------------------------------------------------------------

pub open spec fn strictly_increasing(v: Seq<u32>) -> bool {
    forall|i: int, j: int| 0 <= i < j < v.len() ==> v[i] < v[j]
}

/// The error of the first card of `ids` whose image cannot be found.
pub open spec fn first_image_error(cards: Map<u32, crate::cards::CardView>, ids: Seq<u32>) -> Option<
    CardError,
>
    decreases ids.len(),
{
    if ids.len() == 0 {
        None
    } else {
        match first_image_error(cards, ids.drop_last()) {
            Some(e) => Some(e),
            None => match image_spec(cards, ids.last()) {
                Err(e) => Some(e),
                Ok(_) => None,
            },
        }
    }
}

/// `x` is the image of some card of `ids`.
pub open spec fn image_of_some(cards: Map<u32, crate::cards::CardView>, ids: Seq<u32>, x: u32) -> bool {
    exists|i: int| 0 <= i < ids.len() && image_spec(cards, #[trigger] ids[i]) == Ok::<u32, CardError>(x)
}

/// Inserts `x` into the strictly increasing `out`, unless it is there.
fn insert_id(out: &mut Vec<u32>, x: u32)
    requires
        strictly_increasing(old(out)@),
    ensures
        strictly_increasing(final(out)@),
        forall|y: u32| final(out)@.contains(y) <==> (y == x || old(out)@.contains(y)),
{
    let mut i: usize = 0;
    while i < out.len() && out[i] < x
        invariant
            i <= out@.len(),
            out@ == old(out)@,
            strictly_increasing(out@),
            forall|j: int| 0 <= j < i ==> out@[j] < x,
        decreases out@.len() - i,
    {
        i = i + 1;
    }
    if i < out.len() && out[i] == x {
        return;
    }
    let ghost before = out@;
    out.insert(i, x);
    proof {
        let after = out@;
        assert(after == before.take(i as int).push(x) + before.skip(i as int));
        assert forall|y: u32| after.contains(y) <==> (y == x || before.contains(y)) by {
            if after.contains(y) {
                let k = choose|k: int| 0 <= k < after.len() && after[k] == y;
                if k < i {
                    assert(before[k] == y);
                } else if k > i {
                    assert(before[k - 1] == y);
                }
            }
            if before.contains(y) {
                let k = choose|k: int| 0 <= k < before.len() && before[k] == y;
                if k < i {
                    assert(after[k] == y);
                } else {
                    assert(after[k + 1] == y);
                }
            }
            if y == x {
                assert(after[i as int] == y);
            }
        }
    }
}

/// The center images of the cards `card_ids`, each once, in increasing
/// order; or the error of the first card whose image cannot be found.
pub fn required_image_ids(card_ids: &Vec<u32>, cards: &CardDatabase) -> (r: Result<
    Vec<u32>,
    CardError,
>)
    ensures
        match first_image_error(cards@, card_ids@) {
            Some(e) => r == Err::<Vec<u32>, CardError>(e),
            None => r matches Ok(v) && strictly_increasing(v@) && forall|x: u32|
                v@.contains(x) <==> image_of_some(cards@, card_ids@, x),
        },
{
    let mut out: Vec<u32> = Vec::new();
    let mut k: usize = 0;
    while k < card_ids.len()
        invariant
            k <= card_ids@.len(),
            first_image_error(cards@, card_ids@.take(k as int)) is None,
            strictly_increasing(out@),
            forall|x: u32| out@.contains(x) <==> image_of_some(cards@, card_ids@.take(k as int), x),
        decreases card_ids@.len() - k,
    {
        let ghost t0 = card_ids@.take(k as int);
        let ghost t1 = card_ids@.take(k + 1);
        assert(t1.drop_last() == t0);
        assert(t1.last() == card_ids@[k as int]);
        let image = match cards.image_id(card_ids[k]) {
            Ok(image) => image,
            Err(e) => {
                proof {
                    lemma_first_error_extends(cards@, card_ids@, k + 1);
                }
                return Err(e);
            },
        };
        insert_id(&mut out, image);
        assert forall|x: u32| out@.contains(x) <==> image_of_some(cards@, t1, x) by {
            if image_of_some(cards@, t0, x) {
                let i = choose|i: int| 0 <= i < t0.len() && image_spec(cards@, #[trigger] t0[i]) == Ok::<u32, CardError>(x);
                assert(t1[i] == t0[i]);
            }
            if image_of_some(cards@, t1, x) {
                let i = choose|i: int| 0 <= i < t1.len() && image_spec(cards@, #[trigger] t1[i]) == Ok::<u32, CardError>(x);
                if i < k {
                    assert(t0[i] == t1[i]);
                }
            }
            if x == image {
                assert(image_spec(cards@, t1[k as int]) == Ok::<u32, CardError>(x));
            }
        }
        k = k + 1;
    }
    assert(card_ids@.take(card_ids@.len() as int) == card_ids@);
    Ok(out)
}

/// Where one center image is prepared: its destination in the workspace's
/// image directory and its copy in the cache, both named by its ID.
#[derive(Debug, PartialEq, Eq)]
pub struct ImageJob {
    pub image_id: u32,
    pub destination: String,
    pub cached: String,
}

/// The jobs of preparing the images `image_ids` (each once, as
/// `required_image_ids` gives them): one job per ID, in order, with the
/// paths `images/{id}.jpg` and `cache/{id}.jpg`.
pub fn image_jobs(image_ids: &Vec<u32>, images: &str, cache: &str) -> (jobs: Vec<ImageJob>)
    ensures
        jobs@.len() == image_ids@.len(),
        forall|k: int|
            #![trigger jobs@[k]]
            0 <= k < jobs@.len() ==> {
                let name = decimal(image_ids@[k] as nat) + ".jpg"@;
                &&& jobs@[k].image_id == image_ids@[k]
                &&& jobs@[k].destination@ == crate::paths::join_spec(images@, name)
                &&& jobs@[k].cached@ == crate::paths::join_spec(cache@, name)
            },
{
    let mut jobs: Vec<ImageJob> = Vec::new();
    let mut k: usize = 0;
    while k < image_ids.len()
        invariant
            k <= image_ids@.len(),
            jobs@.len() == k,
            forall|m: int|
                #![trigger jobs@[m]]
                0 <= m < k ==> {
                    let name = decimal(image_ids@[m] as nat) + ".jpg"@;
                    &&& jobs@[m].image_id == image_ids@[m]
                    &&& jobs@[m].destination@ == crate::paths::join_spec(images@, name)
                    &&& jobs@[m].cached@ == crate::paths::join_spec(cache@, name)
                },
        decreases image_ids@.len() - k,
    {
        let id = image_ids[k];
        let name = image_file_name(id);
        let destination = crate::paths::join(images, name.as_str());
        let cached = crate::paths::join(cache, name.as_str());
        jobs.push(ImageJob { image_id: id, destination, cached });
        k = k + 1;
    }
    jobs
}

/// An error among the first `k` cards is the first error of them all.
proof fn lemma_first_error_extends(cards: Map<u32, crate::cards::CardView>, ids: Seq<u32>, k: int)
    requires
        0 <= k <= ids.len(),
        first_image_error(cards, ids.take(k)) is Some,
    ensures
        first_image_error(cards, ids) == first_image_error(cards, ids.take(k)),
    decreases ids.len() - k,
{
    if k < ids.len() {
        assert(ids.take(k + 1).drop_last() == ids.take(k));
        assert(first_image_error(cards, ids.take(k + 1)) == first_image_error(cards, ids.take(k)));
        lemma_first_error_extends(cards, ids, k + 1);
    } else {
        assert(ids.take(k) == ids);
    }
}

// ---------------------------------------------------------------------------
// The report of a run
// ---------------------------------------------------------------------------

/// How many images of `results` were prepared in the way `p`.
pub open spec fn count_of(results: Seq<Result<Preparation, String>>, p: Preparation) -> nat
    decreases results.len(),
{
    if results.len() == 0 {
        0
    } else {
        count_of(results.drop_last(), p) + if results.last() == Ok::<Preparation, String>(p) {
            1nat
        } else {
            0nat
        }
    }
}

/// The messages of the images that could not be prepared, in order.
pub open spec fn failures(results: Seq<Result<Preparation, String>>) -> Seq<Seq<char>>
    decreases results.len(),
{
    if results.len() == 0 {
        seq![]
    } else {
        match results.last() {
            Ok(_) => failures(results.drop_last()),
            Err(e) => failures(results.drop_last()).push(e@),
        }
    }
}

/// One line `- <message>` per failure, separated by line breaks.
pub open spec fn failure_lines(fs: Seq<Seq<char>>) -> Seq<char>
    decreases fs.len(),
{
    if fs.len() == 0 {
        seq![]
    } else if fs.len() == 1 {
        "- "@ + fs[0]
    } else {
        failure_lines(fs.drop_last()) + "\n- "@ + fs.last()
    }
}

/// The report when some image failed: their number, then the first ten.
pub open spec fn failure_report(fs: Seq<Seq<char>>) -> Seq<char> {
    decimal(fs.len()) + " center image preparation(s) failed:\n"@ + failure_lines(first_ten(fs))
}

/// The first ten failures, or all of them if there are fewer.
pub open spec fn first_ten(fs: Seq<Seq<char>>) -> Seq<Seq<char>> {
    if fs.len() < 10 {
        fs
    } else {
        fs.take(10)
    }
}

/// The report when every image was prepared.
pub open spec fn success_report(results: Seq<Result<Preparation, String>>) -> Seq<char> {
    "prepared "@ + decimal(results.len()) + " center images ("@ + decimal(
        count_of(results, Preparation::Downloaded),
    ) + " downloaded, "@ + decimal(count_of(results, Preparation::Restored))
        + " restored from cache, "@ + decimal(count_of(results, Preparation::Converted))
        + " converted, "@ + decimal(count_of(results, Preparation::Reused)) + " reused)"@
}

/// Every result counts once: as a failure or in one of the four ways.
pub proof fn law_every_result_counted(results: Seq<Result<Preparation, String>>)
    ensures
        count_of(results, Preparation::Downloaded) + count_of(results, Preparation::Converted)
            + count_of(results, Preparation::Restored) + count_of(results, Preparation::Reused)
            + failures(results).len() == results.len(),
    decreases results.len(),
{
    if results.len() > 0 {
        law_every_result_counted(results.drop_last());
        match results.last() {
            Ok(p) => {
                assert(results.last() == Ok::<Preparation, String>(p));
            },
            Err(_) => {},
        }
    }
}

/// Reports a run over all images: `Ok` with the tally when none failed, or
/// `Err` with the failures.
pub fn fetch_report(results: &Vec<Result<Preparation, String>>) -> (r: Result<String, String>)
    ensures
        failures(results@).len() == 0 ==> (r matches Ok(m) && m@ == success_report(results@)),
        failures(results@).len() > 0 ==> (r matches Err(m) && m@ == failure_report(
            failures(results@),
        )),
{
    let mut downloaded: usize = 0;
    let mut converted: usize = 0;
    let mut restored: usize = 0;
    let mut reused: usize = 0;
    let mut failed: usize = 0;
    let mut k: usize = 0;
    while k < results.len()
        invariant
            k <= results@.len(),
            downloaded == count_of(results@.take(k as int), Preparation::Downloaded),
            converted == count_of(results@.take(k as int), Preparation::Converted),
            restored == count_of(results@.take(k as int), Preparation::Restored),
            reused == count_of(results@.take(k as int), Preparation::Reused),
            failed == failures(results@.take(k as int)).len(),
        decreases results@.len() - k,
    {
        let ghost t = results@.take(k + 1);
        assert(t.drop_last() == results@.take(k as int));
        assert(t.last() == results@[k as int]);
        proof {
            law_every_result_counted(t);
        }
        match &results[k] {
            Ok(Preparation::Downloaded) => downloaded = downloaded + 1,
            Ok(Preparation::Converted) => converted = converted + 1,
            Ok(Preparation::Restored) => restored = restored + 1,
            Ok(Preparation::Reused) => reused = reused + 1,
            Err(_) => failed = failed + 1,
        }
        k = k + 1;
    }
    assert(results@.take(results@.len() as int) == results@);
    let mut out: Vec<char> = Vec::new();
    if failed == 0 {
        push_str(&mut out, "prepared ");
        push_decimal(&mut out, results.len() as u64);
        push_str(&mut out, " center images (");
        push_decimal(&mut out, downloaded as u64);
        push_str(&mut out, " downloaded, ");
        push_decimal(&mut out, restored as u64);
        push_str(&mut out, " restored from cache, ");
        push_decimal(&mut out, converted as u64);
        push_str(&mut out, " converted, ");
        push_decimal(&mut out, reused as u64);
        push_str(&mut out, " reused)");
        return Ok(string_of(&out));
    }
    push_decimal(&mut out, failed as u64);
    push_str(&mut out, " center image preparation(s) failed:\n");
    let ghost head = out@;
    let mut listed: usize = 0;
    let mut i: usize = 0;
    while i < results.len()
        invariant
            i <= results@.len(),
            listed == if failures(results@.take(i as int)).len() < 10 {
                failures(results@.take(i as int)).len()
            } else {
                10
            },
            out@ == head + failure_lines(failures(results@.take(i as int)).take(listed as int)),
        decreases results@.len() - i,
    {
        let ghost f0 = failures(results@.take(i as int));
        let ghost t = results@.take(i + 1);
        assert(t.drop_last() == results@.take(i as int));
        assert(t.last() == results@[i as int]);
        match &results[i] {
            Ok(_) => {},
            Err(e) => {
                let ghost f1 = f0.push(e@);
                assert(failures(t) == f1);
                if listed < 10 {
                    assert(f1.take(listed + 1) == f0.take(listed as int).push(e@));
                    assert(f1.take(listed + 1).drop_last() == f0.take(listed as int));
                    if listed > 0 {
                        push_str(&mut out, "\n- ");
                    } else {
                        push_str(&mut out, "- ");
                    }
                    push_str(&mut out, e.as_str());
                    listed = listed + 1;
                } else {
                    assert(f1.take(10) == f0.take(10));
                }
            },
        }
        i = i + 1;
    }
    assert(results@.take(results@.len() as int) == results@);
    assert(failures(results@).take(listed as int) == first_ten(failures(results@)));
    Err(string_of(&out))
}

} // verus!
