//! Media helpers: human-readable sizes, `data:` URIs for resolved media
//! (base64 of the bytes, MIME sniffed from the content), and the upload
//! classification of a picked file.

use base64::Engine;
use image::GenericImageView;
use vstd::prelude::*;

use crate::error::ClientError;
use crate::model::{opt_view, Attachment, AttachmentKind, Duplicate};
use crate::text::{
    ascii_lower, ascii_lower_vec, chars_of, dec, last_index_of, last_index_of_exec, owned,
    push_dec, push_str, slice_vec, str_eq, string_from_chars,
};

verus! {

// ----------------------------------------------------------------------
// Sizes
// ----------------------------------------------------------------------

/// `n / d` rounded to the nearest whole number, halves to the even one.
pub open spec fn round_half_even(n: nat, d: nat) -> nat
    recommends
        d > 0,
{
    let q = n / d;
    let r = n % d;
    if 2 * r > d || (2 * r == d && q % 2 == 1) {
        q + 1
    } else {
        q
    }
}

pub open spec fn pow2(e: nat) -> nat
    decreases e,
{
    if e == 0 {
        1
    } else {
        2 * pow2((e - 1) as nat)
    }
}

/// 2^53: a double's significand holds integers below it.
pub const SIGNIFICAND_LIMIT: u128 = 0x20_0000_0000_0000;

/// 2^52 * 10^6: a quotient by a million is at least 2^52 exactly when the
/// dividend is at least this.
pub const SCALED_FLOOR: u128 = 4_503_599_627_370_496_000_000;

/// Halvings that bring `n` below 2^53.
pub open spec fn excess_bits(n: nat) -> nat
    decreases n,
{
    if n < SIGNIFICAND_LIMIT {
        0
    } else {
        1 + excess_bits(n / 2)
    }
}

/// The value of `n as f64`: `n` kept to 53 significant bits, rounded to
/// nearest with halves to even.
pub open spec fn as_double(n: nat) -> nat {
    round_half_even(n, pow2(excess_bits(n))) * pow2(excess_bits(n))
}

/// Doublings that bring `x` to at least 2^52 * 10^6, so that `x / 10^6`
/// scaled by `2^k` has a 53-bit whole part.
pub open spec fn lift(x: nat) -> nat
    decreases (if x < SCALED_FLOOR { SCALED_FLOOR - x } else { 0 }),
{
    if x == 0 || x >= SCALED_FLOOR {
        0
    } else {
        1 + lift(2 * x)
    }
}

/// Size in tenths of a megabyte as `{:.1}` prints `bytes as f64 / 1e6`.
/// The bytes become the double `x`; the quotient `x / 10^6` becomes the
/// double `m / 2^k`, its significand `m` rounded to nearest with halves to
/// even; printing one decimal rounds `10 m / 2^k` the same way.
pub open spec fn mb_tenths(bytes: nat) -> nat {
    let x = as_double(bytes);
    let k = lift(x);
    let m = round_half_even(x * pow2(k), 1_000_000);
    round_half_even(10 * m, pow2(k))
}

fn round_half_even_exec(n: u128, d: u128) -> (r: u128)
    requires
        0 < d < 0x4000_0000_0000_0000_0000_0000_0000_0000,
        n < 0x4000_0000_0000_0000_0000_0000_0000_0000,
    ensures
        r == round_half_even(n as nat, d as nat),
        n / d <= r <= n / d + 1,
{
    let q = n / d;
    let r = n % d;
    if 2 * r > d || (2 * r == d && q % 2 == 1) {
        q + 1
    } else {
        q
    }
}

/// [`mb_tenths`], computed in integers.
fn mb_tenths_exec(bytes: u64) -> (t: u64)
    requires
        bytes >= 1_000_000,
    ensures
        t == mb_tenths(bytes as nat),
{
    let bb = bytes as u128;
    let mut ps: u128 = 1;
    let ghost mut s: nat = 0;
    while bb / ps >= SIGNIFICAND_LIMIT
        invariant
            bb == bytes,
            bb >= 1_000_000,
            ps == pow2(s),
            1 <= ps <= bb,
            excess_bits(bb as nat) == s + excess_bits((bb / ps) as nat),
        decreases bb / ps,
    {
        proof {
            vstd::arithmetic::div_mod::lemma_div_denominator(bb as int, ps as int, 2);
            vstd::arithmetic::div_mod::lemma_fundamental_div_mod(bb as int, ps as int);
            vstd::arithmetic::mul::lemma_mul_inequality(2, (bb / ps) as int, ps as int);
            assert(ps * (bb / ps) == (bb / ps) * ps) by (nonlinear_arith);
            vstd::arithmetic::div_mod::lemma_div_decreases((bb / ps) as int, 2);
        }
        ps = ps * 2;
        proof {
            s = s + 1;
        }
    }
    assert(pow2(excess_bits(bb as nat)) == ps);
    proof {
        vstd::arithmetic::div_mod::lemma_div_is_ordered(ps as int, bb as int, ps as int);
        vstd::arithmetic::div_mod::lemma_div_by_self(ps as int);
        vstd::arithmetic::div_mod::lemma_div_is_ordered_by_denominator(bb as int, 1, ps as int);
    }
    let r = round_half_even_exec(bb, ps);
    assert(1 <= r <= SIGNIFICAND_LIMIT);
    assert(r * ps <= SIGNIFICAND_LIMIT * 0x1_0000_0000_0000_0000) by (nonlinear_arith)
        requires
            r <= SIGNIFICAND_LIMIT,
            ps <= 0x1_0000_0000_0000_0000u128,
    ;
    assert(r * ps >= 1) by (nonlinear_arith)
        requires
            r >= 1,
            ps >= 1,
    ;
    let x = r * ps;
    assert(x == as_double(bytes as nat));
    assert(x <= (bb / ps + 1) * ps) by (nonlinear_arith)
        requires
            x == r * ps,
            r <= bb / ps + 1,
            ps >= 1,
    ;
    proof {
        vstd::arithmetic::div_mod::lemma_fundamental_div_mod(bb as int, ps as int);
        assert((bb / ps + 1) * ps == ps * (bb / ps) + ps) by (nonlinear_arith);
    }
    let mut xs: u128 = x;
    let mut pk: u128 = 1;
    let ghost mut k: nat = 0;
    while xs < SCALED_FLOOR
        invariant
            1 <= x <= 0x2_0000_0000_0000_0000u128,
            xs == x * pk,
            pk == pow2(k),
            1 <= pk <= xs,
            xs < 2 * SCALED_FLOOR,
            lift(x as nat) == k + lift(xs as nat),
        decreases 2 * SCALED_FLOOR - xs,
    {
        assert(2 * xs == x * (2 * pk)) by (nonlinear_arith)
            requires
                xs == x * pk,
        ;
        xs = xs * 2;
        pk = pk * 2;
        proof {
            k = k + 1;
        }
    }
    assert(k == lift(x as nat));
    let m = round_half_even_exec(xs, 1_000_000);
    proof {
        vstd::arithmetic::div_mod::lemma_multiply_divide_lt(xs as int, 1_000_000, SIGNIFICAND_LIMIT as int);
    }
    assert(m <= SIGNIFICAND_LIMIT);
    let t = round_half_even_exec(10 * m, pk);
    proof {
        vstd::arithmetic::div_mod::lemma_div_is_ordered_by_denominator((10 * m) as int, 1, pk as int);
    }
    t as u64
}

/// `1.5 MB` / `340 KB` / `512 B`: megabytes with one decimal from a
/// million bytes on, kilobytes rounded up from a thousand on, bytes below.
pub open spec fn format_size_spec(bytes: nat) -> Seq<char> {
    if bytes >= 1_000_000 {
        let t = mb_tenths(bytes);
        dec(t / 10) + "."@ + dec(t % 10) + " MB"@
    } else if bytes >= 1_000 {
        dec((bytes + 999) / 1000) + " KB"@
    } else {
        dec(bytes) + " B"@
    }
}

/// Human-friendly file size for attachment cards.
pub fn format_size(bytes: u64) -> (s: String)
    ensures
        s@ == format_size_spec(bytes as nat),
{
    let mut v: Vec<char> = Vec::new();
    if bytes >= 1_000_000 {
        let t = mb_tenths_exec(bytes);
        push_dec(&mut v, t / 10);
        push_str(&mut v, ".");
        push_dec(&mut v, t % 10);
        push_str(&mut v, " MB");
    } else if bytes >= 1_000 {
        push_dec(&mut v, (bytes + 999) / 1000);
        push_str(&mut v, " KB");
    } else {
        push_dec(&mut v, bytes);
        push_str(&mut v, " B");
    }
    assert(v@ =~= format_size_spec(bytes as nat));
    string_from_chars(v.as_slice())
}

// ----------------------------------------------------------------------
// Base64 and data URIs
// ----------------------------------------------------------------------

/// The standard base64 alphabet (RFC 4648 §4).
pub open spec fn b64_char(v: nat) -> char {
    if v < 26 {
        ((65 + v) as u32) as char
    } else if v < 52 {
        ((97 + v - 26) as u32) as char
    } else if v < 62 {
        ((48 + v - 52) as u32) as char
    } else if v == 62 {
        '+'
    } else {
        '/'
    }
}

/// Padded standard base64 of `s`.
pub open spec fn b64(s: Seq<u8>) -> Seq<char>
    decreases s.len(),
{
    if s.len() == 0 {
        Seq::empty()
    } else if s.len() == 1 {
        seq![b64_char((s[0] / 4) as nat), b64_char(((s[0] % 4) * 16) as nat), '=', '=']
    } else if s.len() == 2 {
        seq![
            b64_char((s[0] / 4) as nat),
            b64_char(((s[0] % 4) * 16 + s[1] / 16) as nat),
            b64_char(((s[1] % 16) * 4) as nat),
            '=',
        ]
    } else {
        seq![
            b64_char((s[0] / 4) as nat),
            b64_char(((s[0] % 4) * 16 + s[1] / 16) as nat),
            b64_char(((s[1] % 16) * 4 + s[2] / 64) as nat),
            b64_char((s[2] % 64) as nat),
        ] + b64(s.subrange(3, s.len() as int))
    }
}

/// `base64::engine::general_purpose::STANDARD.encode`: RFC 4648 base64
/// with the standard alphabet and `=` padding. The crate panics when the
/// encoded length overflows `usize`, which the precondition rules out.
#[verifier::external_body]
fn base64_standard(bytes: &[u8]) -> (s: String)
    requires
        bytes@.len() / 3 * 4 + 4 <= usize::MAX,
    ensures
        s@ == b64(bytes@),
{
    base64::engine::general_purpose::STANDARD.encode(bytes)
}

/// What MIME type `infer` recognizes the bytes as.
pub uninterp spec fn sniffed_mime(bytes: Seq<u8>) -> Option<Seq<char>>;

/// `infer::get(bytes)` mapped to its MIME string: the type `infer`
/// detects from the content's magic numbers, if any. The detection table is
/// not restated; the result is named by [`sniffed_mime`].
#[verifier::external_body]
fn sniff_mime(bytes: &[u8]) -> (m: Option<String>)
    ensures
        match m {
            Some(s) => sniffed_mime(bytes@) == Some(s@),
            None => sniffed_mime(bytes@) is None,
        },
{
    infer::get(bytes).map(|k| k.mime_type().to_string())
}

/// The MIME type a resolved piece of media is served as: what the bytes
/// sniff as, else `image/jpeg`.
pub open spec fn media_mime(bytes: Seq<u8>) -> Seq<char> {
    match sniffed_mime(bytes) {
        Some(m) => m,
        None => "image/jpeg"@,
    }
}

/// `data:{mime};base64,{payload}`.
pub open spec fn data_uri_spec(mime: Seq<char>, bytes: Seq<u8>) -> Seq<char> {
    "data:"@ + mime + ";base64,"@ + b64(bytes)
}

/// Renders media bytes as a `data:` URI for `img { src }`, the MIME type
/// sniffed from the bytes (falling back to `image/jpeg`).
pub fn data_uri(bytes: &[u8]) -> (uri: String)
    requires
        bytes@.len() / 3 * 4 + 4 <= usize::MAX,
    ensures
        uri@ == data_uri_spec(media_mime(bytes@), bytes@),
{
    let mime = match sniff_mime(bytes) {
        Some(m) => m,
        None => owned("image/jpeg"),
    };
    let payload = base64_standard(bytes);
    let mut v: Vec<char> = Vec::new();
    push_str(&mut v, "data:");
    push_str(&mut v, mime.as_str());
    push_str(&mut v, ";base64,");
    push_str(&mut v, payload.as_str());
    assert(v@ =~= data_uri_spec(media_mime(bytes@), bytes@));
    string_from_chars(v.as_slice())
}

// ----------------------------------------------------------------------
// Picked files and uploads
// ----------------------------------------------------------------------

/// The part of `path` after its last `'.'` (the whole path when it has
/// none).
pub open spec fn extension_of(path: Seq<char>) -> Seq<char> {
    match last_index_of(path, '.') {
        Some(i) => path.subrange(i + 1int, path.len() as int),
        None => path,
    }
}

/// Extensions of inline-renderable images.
pub open spec fn is_image_extension(e: Seq<char>) -> bool {
    e == "png"@ || e == "jpg"@ || e == "jpeg"@ || e == "gif"@ || e == "webp"@ || e == "bmp"@
        || e == "svg"@
}

/// The attachment kind a picked file is staged as: an image when its
/// (case-insensitive) extension is an image extension, else a file.
pub open spec fn kind_of_spec(path: Seq<char>) -> AttachmentKind {
    if is_image_extension(ascii_lower(extension_of(path))) {
        AttachmentKind::Image
    } else {
        AttachmentKind::File
    }
}

/// Attachment kind for a picked file, by extension.
pub fn kind_of(path: &str) -> (k: AttachmentKind)
    ensures
        k == kind_of_spec(path@),
{
    let v = chars_of(path);
    let ext = match last_index_of_exec(&v, '.') {
        Some(i) => slice_vec(&v, i + 1, v.len()),
        None => v,
    };
    let lower = ascii_lower_vec(&ext);
    let e = string_from_chars(lower.as_slice());
    let e = e.as_str();
    if str_eq(e, "png") || str_eq(e, "jpg") || str_eq(e, "jpeg") || str_eq(e, "gif") || str_eq(
        e,
        "webp",
    ) || str_eq(e, "bmp") || str_eq(e, "svg") {
        AttachmentKind::Image
    } else {
        AttachmentKind::File
    }
}

/// How the `mime` crate parses a MIME string: `(type, subtype)`,
/// lowercased.
pub uninterp spec fn parsed_mime(s: Seq<char>) -> Option<(Seq<char>, Seq<char>)>;

/// `s.parse::<mime::Mime>()`, reduced to its `type_()` and `subtype()`
/// names. The grammar the crate accepts is not restated; the result is
/// named by [`parsed_mime`].
#[verifier::external_body]
fn parse_mime(s: &str) -> (r: Option<(String, String)>)
    ensures
        match r {
            Some((t, st)) => parsed_mime(s@) == Some((t@, st@)),
            None => parsed_mime(s@) is None,
        },
{
    s.parse::<mime::Mime>().ok().map(
        |m| (m.type_().as_str().to_string(), m.subtype().as_str().to_string()),
    )
}

/// How a picked file is sent.
#[derive(Debug, Clone, PartialEq, Eq)]
pub struct UploadPlan {
    /// MIME type the file is declared as.
    pub mime: String,
    /// Message kind it is sent as.
    pub kind: AttachmentKind,
    /// Declared byte size.
    pub size: u64,
    /// Whether a JPEG thumbnail may be generated (images but GIFs, which
    /// may be animated).
    pub thumbnail: bool,
}

/// The MIME string and its parse a file is sent as: the sniffed type when
/// it parses, else `application/octet-stream`.
pub open spec fn upload_mime(bytes: Seq<u8>) -> (Seq<char>, Seq<char>, Seq<char>) {
    match sniffed_mime(bytes) {
        Some(m) => match parsed_mime(m) {
            Some((t, st)) => (m, t, st),
            None => ("application/octet-stream"@, "application"@, "octet-stream"@),
        },
        None => ("application/octet-stream"@, "application"@, "octet-stream"@),
    }
}

/// Message kind for a MIME top-level type.
pub open spec fn kind_for_type(t: Seq<char>) -> AttachmentKind {
    if t == "image"@ {
        AttachmentKind::Image
    } else if t == "video"@ {
        AttachmentKind::Video
    } else if t == "audio"@ {
        AttachmentKind::Audio
    } else {
        AttachmentKind::File
    }
}

/// Classify a picked file's bytes for sending.
pub fn upload_plan(bytes: &[u8]) -> (p: UploadPlan)
    ensures
        p.mime@ == upload_mime(bytes@).0,
        p.kind == kind_for_type(upload_mime(bytes@).1),
        p.size == bytes@.len(),
        p.thumbnail == (upload_mime(bytes@).1 == "image"@ && upload_mime(bytes@).2 != "gif"@),
{
    let sniffed = sniff_mime(bytes);
    let (mime, t, st) = match sniffed {
        Some(m) => match parse_mime(m.as_str()) {
            Some((t, st)) => (m, t, st),
            None => (owned("application/octet-stream"), owned("application"), owned("octet-stream")),
        },
        None => (owned("application/octet-stream"), owned("application"), owned("octet-stream")),
    };
    let kind = if str_eq(t.as_str(), "image") {
        AttachmentKind::Image
    } else if str_eq(t.as_str(), "video") {
        AttachmentKind::Video
    } else if str_eq(t.as_str(), "audio") {
        AttachmentKind::Audio
    } else {
        AttachmentKind::File
    };
    let thumbnail = str_eq(t.as_str(), "image") && !str_eq(st.as_str(), "gif");
    UploadPlan { mime, kind, size: bytes.len() as u64, thumbnail }
}

/// Why a picked avatar is rejected, or its MIME type: it must sniff as a
/// known type that parses and whose top-level type is `image`.
pub open spec fn avatar_mime_spec(bytes: Seq<u8>) -> Result<Seq<char>, Seq<char>> {
    match sniffed_mime(bytes) {
        None => Err("That file does not look like an image."@),
        Some(m) => match parsed_mime(m) {
            None => Err("Unsupported image type."@),
            Some((t, _)) => if t == "image"@ {
                Ok(m)
            } else {
                Err("Avatars must be images."@)
            },
        },
    }
}

/// Validate a picked avatar file: its MIME type, or an `Invalid` error.
pub fn avatar_mime(bytes: &[u8]) -> (r: Result<String, ClientError>)
    ensures
        match r {
            Ok(m) => avatar_mime_spec(bytes@) == Ok::<Seq<char>, Seq<char>>(m@),
            Err(e) => e.kind == crate::error::ClientErrorKind::Invalid && avatar_mime_spec(bytes@)
                == Err::<Seq<char>, Seq<char>>(e.message@),
        },
{
    let Some(m) = sniff_mime(bytes) else {
        return Err(ClientError::invalid("That file does not look like an image."));
    };
    let Some((t, _)) = parse_mime(m.as_str()) else {
        return Err(ClientError::invalid("Unsupported image type."));
    };
    if !str_eq(t.as_str(), "image") {
        return Err(ClientError::invalid("Avatars must be images."));
    }
    Ok(m)
}

// ----------------------------------------------------------------------
// Media events
// ----------------------------------------------------------------------

/// Where an event's media lives: a plain MXC URI, or an encrypted file
/// with its URI and its encryption info serialized as JSON (absent when it
/// could not be serialized).
#[derive(Debug, Clone, PartialEq, Eq)]
pub enum MediaSource {
    Plain(String),
    Encrypted { url: String, json: Option<String> },
}

/// The URI and the encryption info of a media source.
pub fn split_source(source: &MediaSource) -> (r: (Option<String>, Option<String>))
    ensures
        match *source {
            MediaSource::Plain(uri) => r == (Some(uri), None::<String>),
            MediaSource::Encrypted { url, json } => r == (Some(url), json),
        },
{
    match source {
        MediaSource::Plain(uri) => (Some(uri.duplicate()), None),
        MediaSource::Encrypted { url, json } => (Some(url.duplicate()), json.duplicate()),
    }
}

/// The largest integer the protocol's JSON numbers carry exactly (2^53 - 1).
pub const MAX_SAFE_UINT: u64 = 9_007_199_254_740_991;

/// A size or dimension as the protocol's unsigned integer: dropped when it
/// exceeds the protocol's range.
pub fn uint(v: Option<u64>) -> (r: Option<u64>)
    ensures
        r == match v {
            Some(n) => if n <= MAX_SAFE_UINT { Some(n) } else { None },
            None => None,
        },
{
    match v {
        Some(n) => if n <= MAX_SAFE_UINT { Some(n) } else { None },
        None => None,
    }
}

/// An image, video, audio or file message as the timeline delivers it.
#[derive(Debug, Clone, PartialEq, Eq)]
pub struct MediaContent {
    pub kind: AttachmentKind,
    pub body: String,
    pub filename: Option<String>,
    pub source: MediaSource,
    pub mimetype: Option<String>,
    pub width: Option<u64>,
    pub height: Option<u64>,
    pub size: Option<u64>,
    pub thumbnail_source: Option<MediaSource>,
}

/// A media message mapped for the timeline: its body and its attachment.
#[derive(Debug, Clone, PartialEq, Eq)]
pub struct MappedMedia {
    pub body: String,
    pub attachment: Attachment,
}

pub open spec fn source_parts(s: MediaSource) -> (Option<String>, Option<String>) {
    match s {
        MediaSource::Plain(uri) => (Some(uri), None),
        MediaSource::Encrypted { url, json } => (Some(url), json),
    }
}

pub open spec fn fits_u32(v: Option<u64>) -> Option<u32> {
    match v {
        Some(n) => if n <= u32::MAX { Some(n as u32) } else { None },
        None => None,
    }
}

fn to_u32(v: Option<u64>) -> (r: Option<u32>)
    ensures
        r == fits_u32(v),
{
    match v {
        Some(n) => if n <= u32::MAX as u64 { Some(n as u32) } else { None },
        None => None,
    }
}

/// The attachment a media message maps to: named by its file name (else,
/// and for audio always, its body), sized when the size is known, with its
/// sources and type; images and videos carry their dimensions (dropped
/// when they do not fit 32 bits), and all but audio their thumbnail source.
pub open spec fn media_attachment(c: MediaContent, a: Attachment) -> bool {
    &&& a.kind == c.kind
    &&& a.name@ == match c.filename {
        Some(f) => if c.kind == AttachmentKind::Audio { c.body@ } else { f@ },
        None => c.body@,
    }
    &&& a.size@ == match c.size {
        Some(n) => format_size_spec(n as nat),
        None => Seq::<char>::empty(),
    }
    &&& (a.mxc, a.encrypted) == source_parts(c.source)
    &&& a.mime == c.mimetype
    &&& a.width == if c.kind == AttachmentKind::Image || c.kind == AttachmentKind::Video { fits_u32(c.width) } else { None }
    &&& a.height == if c.kind == AttachmentKind::Image || c.kind == AttachmentKind::Video { fits_u32(c.height) } else { None }
    &&& (a.thumb_mxc, a.thumb_encrypted) == match c.thumbnail_source {
        Some(t) => if c.kind == AttachmentKind::Audio { (None, None) } else { source_parts(t) },
        None => (None::<String>, None::<String>),
    }
    &&& a.local_path is None
}

/// Maps a media message to its row body and attachment.
pub fn map_media(c: &MediaContent) -> (m: MappedMedia)
    ensures
        m.body == c.body,
        media_attachment(*c, m.attachment),
{
    let audio = match c.kind {
        AttachmentKind::Audio => true,
        _ => false,
    };
    let name = match &c.filename {
        Some(f) => if audio { c.body.duplicate() } else { f.duplicate() },
        None => c.body.duplicate(),
    };
    let size = match c.size {
        Some(n) => format_size(n),
        None => String::new(),
    };
    let mut attachment = Attachment::new(c.kind, name, size);
    let (mxc, encrypted) = split_source(&c.source);
    attachment.mxc = mxc;
    attachment.encrypted = encrypted;
    attachment.mime = c.mimetype.duplicate();
    let sized = match c.kind {
        AttachmentKind::Image | AttachmentKind::Video => true,
        _ => false,
    };
    if sized {
        attachment.width = to_u32(c.width);
        attachment.height = to_u32(c.height);
    }
    if !audio {
        if let Some(t) = &c.thumbnail_source {
            let (tm, te) = split_source(t);
            attachment.thumb_mxc = tm;
            attachment.thumb_encrypted = te;
        }
    }
    MappedMedia { body: c.body.duplicate(), attachment }
}

// ----------------------------------------------------------------------
// Image uploads
// ----------------------------------------------------------------------

/// Longest edge of a generated thumbnail.
pub const THUMB_EDGE: u32 = 800;

#[verifier::external_type_specification]
#[verifier::external_body]
pub struct ExDynamicImage(image::DynamicImage);

/// Width and height of a decoded image: the shape of its pixel buffer
/// (`GenericImageView::dimensions`).
pub uninterp spec fn image_size(img: image::DynamicImage) -> (u32, u32);

/// What `image::load_from_memory` decodes these bytes to; `None` when it
/// fails. It guesses the format from the leading bytes and runs that
/// format's decoder under the default limits, so the outcome depends on
/// the bytes alone.
pub uninterp spec fn decoded_image(bytes: Seq<u8>) -> Option<image::DynamicImage>;

/// The size of the image these bytes decode to.
pub open spec fn decoded_dims(bytes: Seq<u8>) -> Option<(u32, u32)> {
    match decoded_image(bytes) {
        Some(img) => Some(image_size(img)),
        None => None,
    }
}

/// Decodes an image (`image::load_from_memory`); `None` when the bytes are
/// not an image the decoder reads.
#[verifier::external_body]
fn load_image(bytes: &[u8]) -> (r: Option<image::DynamicImage>)
    ensures
        r == decoded_image(bytes@),
{
    image::load_from_memory(bytes).ok()
}

/// Width and height of a decoded image (`GenericImageView::dimensions`).
#[verifier::external_body]
fn image_dimensions(img: &image::DynamicImage) -> (r: (u32, u32))
    ensures
        r == image_size(*img),
{
    img.dimensions()
}

/// The size that a `w` by `h` image takes when scaled to fit an `edge` by
/// `edge` box with its aspect ratio kept: the longer side (the width on a
/// tie) becomes the edge, and the other side is the proportional length
/// rounded to a whole pixel, at least one.
pub open spec fn fits_box(w: int, h: int, edge: int, tw: int, th: int) -> bool {
    if w >= h {
        &&& tw == edge
        &&& 1 <= th <= edge
        &&& 2 * edge * h <= (2 * th + 1) * w + 2
        &&& (th == 1 || (2 * th - 1) * w <= 2 * edge * h + 2)
    } else {
        &&& th == edge
        &&& 1 <= tw <= edge
        &&& 2 * edge * w <= (2 * tw + 1) * h + 2
        &&& (tw == 1 || (2 * tw - 1) * h <= 2 * edge * w + 2)
    }
}

/// The image scaled to fit a box of `edge` by `edge`, keeping its aspect
/// ratio (`DynamicImage::thumbnail`). The crate computes the ratio in
/// floating point and rounds each side to the nearest pixel, at least one;
/// within the bounds below the rounding error stays under a pixel, and
/// the contract states the resulting size to that precision.
/// What `DynamicImage::thumbnail` makes of an image for a box of `edge`
/// by `edge`; it depends on the image and the edge alone.
pub uninterp spec fn scaled_image(img: image::DynamicImage, edge: u32) -> image::DynamicImage;

#[verifier::external_body]
fn scale_to_fit(img: &image::DynamicImage, edge: u32) -> (r: image::DynamicImage)
    requires
        1 <= edge <= 1_048_576,
        image_size(*img).0 > 0 || image_size(*img).1 > 0,
    ensures
        r == scaled_image(*img, edge),
        fits_box(image_size(*img).0 as int, image_size(*img).1 as int, edge as int, image_size(r).0 as int, image_size(r).1 as int),
{
    img.thumbnail(edge, edge)
}

/// The JPEG encoding that `DynamicImage::write_to` with
/// `ImageFormat::Jpeg` gives of an image (the encoder's default quality);
/// `None` when the encoder refuses it. It depends on the image alone.
pub uninterp spec fn jpeg_of(img: image::DynamicImage) -> Option<Seq<u8>>;

/// The image encoded as JPEG (`DynamicImage::write_to`); `None` when the
/// encoder fails.
#[verifier::external_body]
fn encode_jpeg(img: &image::DynamicImage) -> (r: Option<Vec<u8>>)
    ensures
        match r {
            Some(data) => jpeg_of(*img) == Some(data@),
            None => jpeg_of(*img) is None,
        },
{
    let mut buf: Vec<u8> = Vec::new();
    img.write_to(&mut std::io::Cursor::new(&mut buf), image::ImageFormat::Jpeg).ok().map(|_| buf)
}

/// Declared dimensions of an uploaded image.
#[derive(Debug, Clone, Copy, PartialEq, Eq, Structural)]
pub struct ImageInfo {
    pub width: Option<u64>,
    pub height: Option<u64>,
}

/// A generated JPEG thumbnail.
#[derive(Debug, Clone, PartialEq, Eq)]
pub struct Thumbnail {
    pub data: Vec<u8>,
    pub width: u64,
    pub height: u64,
    pub size: u64,
}

/// Whether an image of this size gets a thumbnail: when an edge exceeds
/// the thumbnail edge.
pub open spec fn needs_thumbnail(w: u32, h: u32) -> bool {
    w > THUMB_EDGE || h > THUMB_EDGE
}

/// The info and thumbnail of an upload, from its decoded dimensions and
/// the encoded thumbnail (its bytes and dimensions) when one was made.
pub fn image_info_from(dims: Option<(u32, u32)>, thumb: Option<(Vec<u8>, u32, u32)>) -> (r: (ImageInfo, Option<Thumbnail>))
    ensures
        dims is None ==> r.0 == (ImageInfo { width: None, height: None }) && r.1 is None,
        dims matches Some((w, h)) ==> r.0 == (ImageInfo { width: Some(w as u64), height: Some(h as u64) }),
        dims matches Some((w, h)) && !needs_thumbnail(w, h) ==> r.1 is None,
        dims matches Some((w, h)) && needs_thumbnail(w, h) ==> match thumb {
            None => r.1 is None,
            Some((data, tw, th)) => if data@.len() <= MAX_SAFE_UINT {
                r.1 matches Some(t) && t.data@ == data@ && t.width == tw && t.height == th && t.size == data@.len()
            } else {
                r.1 is None
            },
        },
{
    match dims {
        None => (ImageInfo { width: None, height: None }, None),
        Some((w, h)) => {
            let info = ImageInfo { width: Some(w as u64), height: Some(h as u64) };
            if w <= THUMB_EDGE && h <= THUMB_EDGE {
                return (info, None);
            }
            match thumb {
                None => (info, None),
                Some((data, tw, th)) => {
                    let n = data.len() as u64;
                    if n <= MAX_SAFE_UINT {
                        (info, Some(Thumbnail { data, width: tw as u64, height: th as u64, size: n }))
                    } else {
                        (info, None)
                    }
                },
            }
        },
    }
}

/// The thumbnail an upload gets: for an image with an edge over the
/// thumbnail edge, its scaled copy encoded as JPEG, with the copy's width
/// and height; none when the encoder refuses it.
pub open spec fn thumbnail_spec(bytes: Seq<u8>) -> Option<(Seq<u8>, u32, u32)> {
    match decoded_image(bytes) {
        Some(img) => if needs_thumbnail(image_size(img).0, image_size(img).1) {
            let small = scaled_image(img, THUMB_EDGE);
            match jpeg_of(small) {
                Some(d) => Some((d, image_size(small).0, image_size(small).1)),
                None => None,
            }
        } else {
            None
        },
        None => None,
    }
}

/// Reads an uploaded image: its dimensions, and a JPEG thumbnail scaled to
/// fit the thumbnail edge when it is larger. Bytes that do not decode get
/// no dimensions and no thumbnail.
pub fn image_info(bytes: &[u8]) -> (r: (ImageInfo, Option<Thumbnail>))
    ensures
        match thumbnail_spec(bytes@) {
            Some((d, tw, th)) => if d.len() <= MAX_SAFE_UINT {
                r.1 matches Some(t) && t.data@ == d && t.width == tw && t.height == th && t.size == d.len()
            } else {
                r.1 is None
            },
            None => r.1 is None,
        },
        r.0.width == (match decoded_dims(bytes@) {
            Some((w, _)) => Some(w as u64),
            None => None,
        }),
        r.0.height == (match decoded_dims(bytes@) {
            Some((_, h)) => Some(h as u64),
            None => None,
        }),
        r.1 matches Some(t) ==> t.size == t.data@.len() && (decoded_dims(bytes@) matches Some((w, h)) && needs_thumbnail(w, h)
            && fits_box(w as int, h as int, THUMB_EDGE as int, t.width as int, t.height as int)),
        (decoded_dims(bytes@) matches Some((w, h)) && !needs_thumbnail(w, h)) ==> r.1 is None,
{
    let img = match load_image(bytes) {
        Some(img) => img,
        None => {
            return image_info_from(None, None);
        },
    };
    let (w, h) = image_dimensions(&img);
    if w <= THUMB_EDGE && h <= THUMB_EDGE {
        return image_info_from(Some((w, h)), None);
    }
    let small = scale_to_fit(&img, THUMB_EDGE);
    let (tw, th) = image_dimensions(&small);
    let thumb = match encode_jpeg(&small) {
        Some(data) => Some((data, tw, th)),
        None => None,
    };
    image_info_from(Some((w, h)), thumb)
}


/// A file is sent as the kind its sniffed MIME type names: top-level type
/// `image` as an image, `video` as a video, `audio` as audio, anything else
/// (or nothing sniffed) as a file; and a thumbnail is offered for images
/// only.
pub proof fn law_upload_kind_follows_mime(bytes: Seq<u8>)
    ensures
        (kind_for_type(upload_mime(bytes).1) == AttachmentKind::Image) == (upload_mime(bytes).1 == "image"@),
        (kind_for_type(upload_mime(bytes).1) == AttachmentKind::Video) == (upload_mime(bytes).1 == "video"@),
        (kind_for_type(upload_mime(bytes).1) == AttachmentKind::Audio) == (upload_mime(bytes).1 == "audio"@),
        (kind_for_type(upload_mime(bytes).1) == AttachmentKind::File) == (upload_mime(bytes).1 != "image"@
            && upload_mime(bytes).1 != "video"@ && upload_mime(bytes).1 != "audio"@),
        sniffed_mime(bytes) is None ==> kind_for_type(upload_mime(bytes).1) == AttachmentKind::File,
{
    reveal_strlit("image");
    reveal_strlit("video");
    reveal_strlit("audio");
    reveal_strlit("application");
    assert("image"@[0] != "video"@[0] && "image"@[0] != "audio"@[0] && "video"@[0] != "audio"@[0]);
    assert("application"@.len() != "image"@.len());
}

/// A picked file is staged as an image exactly when its extension, in any
/// case, is one of `png`, `jpg`, `jpeg`, `gif`, `webp`, `bmp`, `svg`; every
/// other file is staged as a file.
pub proof fn law_image_extensions_stage_images(path: Seq<char>)
    ensures
        (kind_of_spec(path) == AttachmentKind::Image) == {
            let e = ascii_lower(extension_of(path));
            ||| e == "png"@
            ||| e == "jpg"@
            ||| e == "jpeg"@
            ||| e == "gif"@
            ||| e == "webp"@
            ||| e == "bmp"@
            ||| e == "svg"@
        },
        kind_of_spec(path) == AttachmentKind::Image || kind_of_spec(path) == AttachmentKind::File,
{
}

} // verus!
