use svg3::image::{unpad_rows, Image};
use svg3::image_decode::{
    decode_image_href, decode_png_data_url, png_output_to_rgba, ImageDecodeError, PngBitDepth,
    PngColorType,
};

// A 1x1 opaque red RGBA PNG.
const RED_PIXEL_PNG: &str = "iVBORw0KGgoAAAANSUhEUgAAAAEAAAABCAYAAAAfFcSJAAAADUlEQVR4nGP4z8DwHwAFAAH/iZk9HQAAAABJRU5ErkJggg==";

#[test]
fn pixel_reads_rgba_bytes_row_major() {
    let image = Image { width: 2, height: 2, pixels: (0u8..16).collect() };
    assert_eq!(image.pixel(0, 0), [0, 1, 2, 3]);
    assert_eq!(image.pixel(1, 0), [4, 5, 6, 7]);
    assert_eq!(image.pixel(0, 1), [8, 9, 10, 11]);
    assert_eq!(image.pixel(1, 1), [12, 13, 14, 15]);
}

#[test]
fn unpad_rows_drops_row_padding() {
    let mapped: Vec<u8> = (0u8..24).collect();
    let pixels = unpad_rows(&mapped, 1, 3, 8);
    assert_eq!(pixels, vec![0, 1, 2, 3, 8, 9, 10, 11, 16, 17, 18, 19]);
    assert!(unpad_rows(&mapped, 2, 0, 8).is_empty());
}

#[test]
fn data_url_reads_base64_png_payload() {
    let href = format!("  data:image/png;base64,{RED_PIXEL_PNG}  ");
    let bytes = decode_png_data_url(&href).unwrap();
    assert_eq!(&bytes[..8], &[0x89, b'P', b'N', b'G', 0x0d, 0x0a, 0x1a, 0x0a]);
    let plain = decode_png_data_url("data:;charset=x;BASE64,AAEC").unwrap();
    assert_eq!(plain, vec![0, 1, 2]);
}

#[test]
fn data_url_errors_name_what_is_wrong() {
    assert!(matches!(decode_png_data_url("image.png"), Err(ImageDecodeError::UnsupportedHref)));
    assert!(matches!(decode_png_data_url("data:image/png;base64"), Err(ImageDecodeError::UnsupportedHref)));
    match decode_png_data_url("data:image/jpeg;base64,AAAA") {
        Err(ImageDecodeError::UnsupportedMediaType(media)) => assert_eq!(media, "image/jpeg"),
        other => panic!("expected UnsupportedMediaType, got {other:?}"),
    }
    assert!(matches!(decode_png_data_url("data:IMAGE/PNG,AAAA"), Err(ImageDecodeError::DataUrlNotBase64)));
    assert!(matches!(decode_png_data_url("data:image/png;base64,@@@@"), Err(ImageDecodeError::Base64(_))));
}

#[test]
fn decode_image_href_decodes_an_embedded_png() {
    let href = format!("data:image/png;base64,{RED_PIXEL_PNG}");
    let image = decode_image_href(&href).unwrap();
    assert_eq!((image.width, image.height), (1, 1));
    assert_eq!(image.rgba, vec![255, 0, 0, 255]);
}

#[test]
fn decode_image_href_expands_grayscale() {
    let href = "data:;base64,iVBORw0KGgoAAAANSUhEUgAAAAIAAAABCAAAAADRSSBWAAAAC0lEQVR4nGPgOgEAAN8A00shpUkAAAAASUVORK5CYII=";
    let image = decode_image_href(href).unwrap();
    assert_eq!((image.width, image.height), (2, 1));
    assert_eq!(image.rgba, vec![10, 10, 10, 255, 200, 200, 200, 255]);
}

#[test]
fn decode_image_href_reports_png_errors() {
    assert!(matches!(decode_image_href("data:image/png;base64,AAEC"), Err(ImageDecodeError::Png(_))));
}

#[test]
fn png_samples_expand_to_rgba() {
    let gray = png_output_to_rgba(&[7, 9], 2, 1, PngColorType::Grayscale, PngBitDepth::Eight).unwrap();
    assert_eq!(gray, vec![7, 7, 7, 255, 9, 9, 9, 255]);
    let gray_alpha = png_output_to_rgba(&[7, 100], 1, 1, PngColorType::GrayscaleAlpha, PngBitDepth::Eight).unwrap();
    assert_eq!(gray_alpha, vec![7, 7, 7, 100]);
    let rgb = png_output_to_rgba(&[1, 2, 3, 4, 5, 6], 1, 2, PngColorType::Rgb, PngBitDepth::Eight).unwrap();
    assert_eq!(rgb, vec![1, 2, 3, 255, 4, 5, 6, 255]);
    let rgba = png_output_to_rgba(&[1, 2, 3, 4], 1, 1, PngColorType::Rgba, PngBitDepth::Eight).unwrap();
    assert_eq!(rgba, vec![1, 2, 3, 4]);
}

#[test]
fn png_samples_reject_unsupported_formats_and_sizes() {
    assert!(matches!(
        png_output_to_rgba(&[0, 0], 1, 1, PngColorType::Rgba, PngBitDepth::Sixteen),
        Err(ImageDecodeError::UnsupportedPngColor { color_type: PngColorType::Rgba, bit_depth: PngBitDepth::Sixteen })
    ));
    assert!(matches!(
        png_output_to_rgba(&[0], 1, 1, PngColorType::Indexed, PngBitDepth::Eight),
        Err(ImageDecodeError::UnsupportedPngColor { color_type: PngColorType::Indexed, .. })
    ));
    assert!(matches!(
        png_output_to_rgba(&[1, 2, 3], 2, 1, PngColorType::Rgb, PngBitDepth::Eight),
        Err(ImageDecodeError::ImageTooLarge)
    ));
}

#[test]
fn pixel_reads_from_a_longer_buffer() {
    let image = Image { width: 1, height: 2, pixels: (0u8..12).collect() };
    assert_eq!(image.pixel(0, 1), [4, 5, 6, 7]);
}
