use unseen::codes::{
    FORMAT_B8G8R8A8_SRGB, FORMAT_B8G8R8A8_UNORM, FORMAT_R8G8B8A8_UNORM, FORMAT_R8G8B8_SRGB,
};
use unseen::config::OutputFormat;
use unseen::decode::convert_host_image_to_rgb;
use unseen::frame::{frame_path, ppm_file_bytes, replace_text, save_png_frame, save_ppm_frame};

#[test]
fn bgra_pixels_become_rgb() {
    let mut data = Vec::new();
    for _ in 0..8 {
        data.extend_from_slice(&[0xFF, 0x00, 0x00, 0xFF]);
    }
    let rgb = convert_host_image_to_rgb(&data, 4, 2, 16, FORMAT_B8G8R8A8_UNORM).unwrap();
    assert_eq!(rgb.len(), 24);
    for px in rgb.chunks(3) {
        assert_eq!(px, &[0x00, 0x00, 0xFF]);
    }
}

#[test]
fn ppm_file_of_bgra_image() {
    let data: Vec<u8> = [0xFFu8, 0x00, 0x00, 0xFF].repeat(8);
    let rgb = convert_host_image_to_rgb(&data, 4, 2, 16, FORMAT_B8G8R8A8_UNORM).unwrap();
    let file = save_ppm_frame("out/frame_000000.ppm", &rgb, 4, 2);
    let mut expected = b"P6\n4 2\n255\n".to_vec();
    for _ in 0..8 {
        expected.extend_from_slice(&[0x00, 0x00, 0xFF]);
    }
    assert_eq!(file.path, "out/frame_000000.ppm");
    assert_eq!(file.bytes, expected);
}

#[test]
fn rgba_and_rgb_keep_channel_order() {
    let rgba = [1u8, 2, 3, 4, 5, 6, 7, 8];
    assert_eq!(
        convert_host_image_to_rgb(&rgba, 2, 1, 8, FORMAT_R8G8B8A8_UNORM),
        Some(vec![1, 2, 3, 5, 6, 7])
    );
    let rgb = [1u8, 2, 3, 4, 5, 6];
    assert_eq!(
        convert_host_image_to_rgb(&rgb, 2, 1, 6, FORMAT_R8G8B8_SRGB),
        Some(vec![1, 2, 3, 4, 5, 6])
    );
}

#[test]
fn row_pitch_padding_is_skipped() {
    // Two rows of one BGRA pixel each, rows 8 bytes apart.
    let data = [10u8, 20, 30, 40, 99, 99, 99, 99, 50, 60, 70, 80];
    assert_eq!(
        convert_host_image_to_rgb(&data, 1, 2, 8, FORMAT_B8G8R8A8_SRGB),
        Some(vec![30, 20, 10, 70, 60, 50])
    );
}

#[test]
fn unsupported_format_gives_nothing() {
    let data = [0u8; 64];
    // VK_FORMAT_R16G16B16A16_SFLOAT
    assert_eq!(convert_host_image_to_rgb(&data, 2, 2, 16, 97), None);
}

#[test]
fn buffer_too_short_gives_nothing() {
    let data = [0u8; 15];
    assert_eq!(convert_host_image_to_rgb(&data, 2, 2, 8, FORMAT_R8G8B8A8_UNORM), None);
    assert_eq!(convert_host_image_to_rgb(&data, 4, 1, 8, FORMAT_R8G8B8A8_UNORM), None);
}

#[test]
fn empty_image_decodes_to_nothing() {
    assert_eq!(convert_host_image_to_rgb(&[], 0, 5, 0, FORMAT_R8G8B8A8_UNORM), Some(vec![]));
}

#[test]
fn decode_then_reencode_gives_colour_bytes_back() {
    let data: Vec<u8> = (0u8..32).collect();
    let rgb = convert_host_image_to_rgb(&data, 2, 2, 16, FORMAT_B8G8R8A8_UNORM).unwrap();
    for y in 0..2usize {
        for x in 0..2usize {
            let p = 3 * (y * 2 + x);
            let off = y * 16 + x * 4;
            let reencoded = [rgb[p + 2], rgb[p + 1], rgb[p]];
            assert_eq!(&reencoded, &data[off..off + 3]);
        }
    }
}

#[test]
fn frame_paths_are_zero_padded() {
    assert_eq!(frame_path("./captured_frames", 0, OutputFormat::Ppm), "./captured_frames/frame_000000.ppm");
    assert_eq!(frame_path("out", 42, OutputFormat::Png), "out/frame_000042.png");
    assert_eq!(frame_path("out", 1234567, OutputFormat::Ppm), "out/frame_1234567.ppm");
}

#[test]
fn png_request_falls_back_to_ppm() {
    let file = save_png_frame("out/frame_000003.png", &[1, 2, 3], 1, 1);
    assert_eq!(file.path, "out/frame_000003.ppm");
    assert_eq!(file.bytes, b"P6\n1 1\n255\n\x01\x02\x03".to_vec());
}

#[test]
fn replace_text_replaces_every_occurrence() {
    assert_eq!(replace_text("a.png/b.png", ".png", ".ppm"), "a.ppm/b.ppm");
    assert_eq!(replace_text("nothing", ".png", ".ppm"), "nothing");
    assert_eq!(replace_text("aaa", "aa", "b"), "ba");
}

#[test]
fn ppm_header_has_decimal_size() {
    let bytes = ppm_file_bytes(&[], 1920, 1080);
    assert_eq!(bytes, b"P6\n1920 1080\n255\n".to_vec());
}
