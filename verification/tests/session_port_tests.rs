//! Session byte framing and serial-port name normalization.

use receipt_raster::raster::Bitmap;
use receipt_raster::port::normalize_com_port;
use receipt_raster::render::RenderError;
use receipt_raster::session::{pack_frame, session_bytes, RasterFrame};

#[test]
fn session_stream_full_block() {
    let frame = RasterFrame::Full { width_bytes: 2, height: 1, bytes: vec![0xAA, 0x55] };
    let out = session_bytes(&frame, None);
    let expected = vec![
        0x1B, 0x40, // init
        0x1D, 0x76, 0x30, 0x00, 2, 0, 1, 0, // GS v 0, 2x1
        0xAA, 0x55, // raster data
        0x0A, // feed
        0x1D, 0x56, 0x41, 0x00, // cut
    ];
    assert_eq!(out, expected);
}

#[test]
fn session_stream_bands_with_codepage() {
    let frame = RasterFrame::Bands { width: 2, bands: vec![vec![1, 2, 3, 4, 5, 6]] };
    let out = session_bytes(&frame, Some(22));
    let expected = vec![
        0x1B, 0x40, // init
        0x1B, 0x74, 22, // select code page
        0x1B, 0x2A, 33, 2, 0, // band command, 2 columns
        1, 2, 3, 4, 5, 6, // band data
        0x0A, // advance past the band
        0x0A, // feed
        0x1D, 0x56, 0x41, 0x00, // cut
    ];
    assert_eq!(out, expected);
}

#[test]
fn pack_frame_band_count_rounds_up() {
    let bm = Bitmap { width: 2, height: 50, bits: vec![false; 100] };
    match pack_frame(&bm, true) {
        RasterFrame::Bands { width, bands } => {
            assert_eq!(width, 2);
            assert_eq!(bands.len(), 3); // ceil(50 / 24)
            for band in &bands {
                assert_eq!(band.len(), 6);
            }
        },
        _ => panic!("expected bands"),
    }
}

#[test]
fn pack_frame_full_dimensions() {
    let bm = Bitmap { width: 10, height: 3, bits: vec![true; 30] };
    match pack_frame(&bm, false) {
        RasterFrame::Full { width_bytes, height, bytes } => {
            assert_eq!(width_bytes, 2);
            assert_eq!(height, 3);
            assert_eq!(bytes.len(), 6);
        },
        _ => panic!("expected full raster"),
    }
}

#[test]
fn normalizes_high_com_ports_to_device_paths() {
    assert_eq!(normalize_com_port(&"com12".to_string()), "\\\\.\\COM12");
    assert_eq!(normalize_com_port(&"COM10".to_string()), "\\\\.\\COM10");
}

#[test]
fn leaves_low_and_foreign_ports_unchanged() {
    assert_eq!(normalize_com_port(&"COM7".to_string()), "COM7");
    assert_eq!(normalize_com_port(&"com9".to_string()), "com9");
    assert_eq!(normalize_com_port(&"/dev/ttyUSB0".to_string()), "/dev/ttyUSB0");
    assert_eq!(normalize_com_port(&"COM".to_string()), "COM");
    assert_eq!(normalize_com_port(&"COM1x".to_string()), "COM1x");
}

#[test]
fn render_error_messages() {
    assert_eq!(RenderError::InvalidConfig.message(), "invalid layout configuration");
    assert_eq!(RenderError::AmountOverflow.message(), "receipt amounts overflow");
}
