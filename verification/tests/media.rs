use vesper::media::format_size;

#[test]
fn format_size_thresholds() {
    assert_eq!(format_size(512), "512 B");
    assert_eq!(format_size(1_500), "2 KB");
    assert_eq!(format_size(240_000_000), "240.0 MB");
}

use vesper::media::{avatar_mime, data_uri, upload_plan,
    image_info, image_info_from, map_media, split_source, uint, ImageInfo, MediaContent, MediaSource};
use vesper::model::AttachmentKind;
use image::{DynamicImage, ImageBuffer, Rgb};

#[test]
fn uint_rejects_out_of_range_but_keeps_huge_file_sizes() {
    assert_eq!(uint(Some(5 * 1024 * 1024 * 1024)), Some(5 * 1024 * 1024 * 1024u64));
    assert_eq!(uint(Some(u64::MAX)), None);
    assert_eq!(uint(None), None);
}

#[test]
fn uint_keeps_the_largest_safe_integer_only() {
    assert_eq!(uint(Some(9_007_199_254_740_991)), Some(9_007_199_254_740_991));
    assert_eq!(uint(Some(9_007_199_254_740_992)), None);
}

#[test]
fn split_source_plain_and_encrypted_roundtrip() {
    let plain = MediaSource::Plain("mxc://example/abc".to_string());
    let (mxc, enc) = split_source(&plain);
    assert_eq!(mxc.as_deref(), Some("mxc://example/abc"));
    assert!(enc.is_none());

    let encrypted = MediaSource::Encrypted {
        url: "mxc://example/def".to_string(),
        json: Some("{\"v\":\"v2\"}".to_string()),
    };
    let (mxc, enc) = split_source(&encrypted);
    assert_eq!(mxc.as_deref(), Some("mxc://example/def"));
    assert_eq!(enc.as_deref(), Some("{\"v\":\"v2\"}"));
}

fn content(kind: AttachmentKind) -> MediaContent {
    MediaContent {
        kind,
        body: "holiday.jpg".to_string(),
        filename: Some("IMG_0001.jpg".to_string()),
        source: MediaSource::Plain("mxc://example/img".to_string()),
        mimetype: Some("image/jpeg".to_string()),
        width: Some(1200),
        height: Some(5_000_000_000),
        size: Some(1_500),
        thumbnail_source: Some(MediaSource::Plain("mxc://example/thumb".to_string())),
    }
}

#[test]
fn images_keep_dimensions_that_fit_and_their_thumbnail() {
    let m = map_media(&content(AttachmentKind::Image));
    assert_eq!(m.body, "holiday.jpg");
    assert_eq!(m.attachment.name, "IMG_0001.jpg");
    assert_eq!(m.attachment.size, "2 KB");
    assert_eq!(m.attachment.mxc.as_deref(), Some("mxc://example/img"));
    assert_eq!(m.attachment.mime.as_deref(), Some("image/jpeg"));
    assert_eq!(m.attachment.width, Some(1200));
    assert_eq!(m.attachment.height, None);
    assert_eq!(m.attachment.thumb_mxc.as_deref(), Some("mxc://example/thumb"));
}

#[test]
fn audio_is_named_by_its_body_without_thumbnail_or_size_box() {
    let mut c = content(AttachmentKind::Audio);
    c.size = None;
    let m = map_media(&c);
    assert_eq!(m.attachment.name, "holiday.jpg");
    assert_eq!(m.attachment.size, "");
    assert_eq!(m.attachment.width, None);
    assert_eq!(m.attachment.thumb_mxc, None);
}

#[test]
fn small_images_get_no_thumbnail() {
    let (info, thumb) = image_info_from(Some((640, 480)), Some((vec![1, 2, 3], 10, 10)));
    assert_eq!(info, ImageInfo { width: Some(640), height: Some(480) });
    assert!(thumb.is_none());
    let (info, thumb) = image_info_from(None, None);
    assert_eq!(info, ImageInfo { width: None, height: None });
    assert!(thumb.is_none());
}

#[test]
fn large_images_carry_the_encoded_thumbnail() {
    let (info, thumb) = image_info_from(Some((1200, 600)), Some((vec![7, 7, 7, 7], 800, 400)));
    assert_eq!(info, ImageInfo { width: Some(1200), height: Some(600) });
    let thumb = thumb.expect("large image keeps its thumbnail");
    assert_eq!(thumb.data, vec![7, 7, 7, 7]);
    assert_eq!((thumb.width, thumb.height, thumb.size), (800, 400, 4));
}

#[test]
fn thumbnail_dims_match_generated_image() {
    let img: ImageBuffer<Rgb<u8>, Vec<u8>> = ImageBuffer::new(1200, 600);
    let mut png = Vec::new();
    DynamicImage::ImageRgb8(img)
        .write_to(&mut std::io::Cursor::new(&mut png), image::ImageFormat::Png)
        .unwrap();
    let (info, thumb) = image_info(&png);
    let thumb = thumb.expect("a 1200x600 image must get a thumbnail");
    assert_eq!(thumb.width, 800);
    assert_eq!(thumb.height, 400);
    assert_eq!(info.width, Some(1200));
    assert_eq!(info.height, Some(600));
}

#[test]
fn undecodable_bytes_get_no_info() {
    let (info, thumb) = image_info(b"not an image");
    assert_eq!(info, ImageInfo { width: None, height: None });
    assert!(thumb.is_none());
}

const PNG_MAGIC: &[u8] = b"\x89PNG\r\n\x1a\n";

#[test]
fn data_uris_carry_the_sniffed_type_and_base64() {
    assert_eq!(data_uri(PNG_MAGIC), "data:image/png;base64,iVBORw0KGgo=");
    assert_eq!(data_uri(b"abc"), "data:image/jpeg;base64,YWJj");
    assert_eq!(data_uri(b""), "data:image/jpeg;base64,");
}

#[test]
fn avatars_must_sniff_as_images() {
    assert_eq!(avatar_mime(PNG_MAGIC).expect("png"), "image/png");
    let e = avatar_mime(b"abc").unwrap_err();
    assert_eq!(e.kind, vesper::error::ClientErrorKind::Invalid);
    assert_eq!(e.message, "That file does not look like an image.");
    let e = avatar_mime(b"%PDF-1.4 rest").unwrap_err();
    assert_eq!(e.message, "Avatars must be images.");
}

#[test]
fn uploads_are_classified_by_their_bytes() {
    let p = upload_plan(PNG_MAGIC);
    assert_eq!((p.mime.as_str(), p.kind, p.size, p.thumbnail), ("image/png", AttachmentKind::Image, 8, true));
    let g = upload_plan(b"GIF89a....");
    assert_eq!((g.mime.as_str(), g.kind, g.thumbnail), ("image/gif", AttachmentKind::Image, false));
    let f = upload_plan(b"abc");
    assert_eq!((f.mime.as_str(), f.kind, f.size, f.thumbnail), ("application/octet-stream", AttachmentKind::File, 3, false));
}

#[test]
fn megabytes_print_as_the_double_would() {
    // 1.15 is stored just below itself, 1.05 just above; 1.25 is exact
    // and ties to the even tenth.
    assert_eq!(format_size(1_150_000), "1.1 MB");
    assert_eq!(format_size(1_050_000), "1.1 MB");
    assert_eq!(format_size(1_250_000), "1.2 MB");
    assert_eq!(format_size(1_350_000), "1.4 MB");
    assert_eq!(format_size(999_950_000), "1000.0 MB");
    assert_eq!(format_size(u64::MAX), "18446744073709.6 MB");
    assert_eq!(format_size(1_000_000), "1.0 MB");
    assert_eq!(format_size(999_999), "1000 KB");
}

#[test]
fn megabytes_agree_with_float_formatting() {
    let mut seed: u64 = 0x9e37_79b9_7f4a_7c15;
    let mut sizes: Vec<u64> = vec![1_000_000, 1_050_000, 1_150_000, 1_250_000, 9_999_999, u64::MAX, (1u64 << 53) + 1];
    for _ in 0..20_000 {
        seed = seed.wrapping_mul(6364136223846793005).wrapping_add(1442695040888963407);
        sizes.push(1_000_000 + seed % 4_000_000_000);
        sizes.push((1_000_000 + seed % 100_000_000) / 50_000 * 50_000);
        sizes.push(seed.max(1_000_000));
    }
    for b in sizes {
        assert_eq!(format_size(b), format!("{:.1} MB", b as f64 / 1_000_000.0), "{b}");
    }
}
