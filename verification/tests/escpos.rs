use slipbridge::escpos::{build_raster_print_job, RasterOptions};
use slipbridge::error::SlipbridgeError;
use slipbridge::render::RenderedImage;

#[test]
fn splits_large_image_into_safe_chunks() {
    let bytes_per_row = 72usize;
    let height_px = 120u32;
    let raster_data = vec![0xAA; bytes_per_row * height_px as usize];

    let rendered = RenderedImage {
        width_px: 576,
        height_px,
        bytes_per_row,
        raster_data,
    };

    let job = build_raster_print_job(
        &rendered,
        RasterOptions {
            max_payload_bytes: 720,
            max_rows_per_command: 255,
            cut: true,
        },
    )
    .expect("job should build");

    // 720 / 72 = 10 rows per chunk -> 12 chunks for 120 rows.
    assert_eq!(job.chunk_count, 12);
    assert!(job.rows_per_chunk.iter().all(|rows| *rows <= 10));
}

#[test]
fn job_bytes_are_framed_exactly() {
    let rendered = RenderedImage {
        width_px: 16,
        height_px: 3,
        bytes_per_row: 2,
        raster_data: vec![1, 2, 3, 4, 5, 6],
    };
    let job = build_raster_print_job(
        &rendered,
        RasterOptions { max_payload_bytes: 4, max_rows_per_command: 255, cut: false },
    )
    .expect("job should build");
    assert_eq!(job.rows_per_chunk, vec![2, 1]);
    assert_eq!(job.chunk_count, 2);
    assert_eq!(
        job.bytes,
        vec![
            0x1B, 0x40, 0x1B, 0x61, 0x00, // initialize, left align
            0x1D, 0x76, 0x30, 0x00, 2, 0, 2, 0, 1, 2, 3, 4, // two rows
            0x1D, 0x76, 0x30, 0x00, 2, 0, 1, 0, 5, 6, // one row
            0x1B, 0x64, 0x03, // feed
        ]
    );
    assert_eq!(job.bytes.len(), 5 + 8 * 2 + 6 + 3);
}

#[test]
fn job_with_cut_ends_with_full_cut() {
    let rendered = RenderedImage { width_px: 8, height_px: 1, bytes_per_row: 1, raster_data: vec![0xF0] };
    let job = build_raster_print_job(
        &rendered,
        RasterOptions { max_payload_bytes: 0, max_rows_per_command: 0, cut: true },
    )
    .expect("job should build");
    assert_eq!(job.rows_per_chunk, vec![1]);
    assert!(job.bytes.ends_with(&[0x1B, 0x64, 0x03, 0x1D, 0x56, 0x41, 0x00]));
}

#[test]
fn row_limit_caps_chunks() {
    let rendered = RenderedImage { width_px: 8, height_px: 600, bytes_per_row: 1, raster_data: vec![0; 600] };
    let job = build_raster_print_job(
        &rendered,
        RasterOptions { max_payload_bytes: 4096, max_rows_per_command: 255, cut: true },
    )
    .expect("job should build");
    assert_eq!(job.rows_per_chunk, vec![255, 255, 90]);
}

#[test]
fn wide_rows_are_written_little_endian() {
    let rendered = RenderedImage {
        width_px: 4000,
        height_px: 1,
        bytes_per_row: 300,
        raster_data: vec![7; 300],
    };
    let job = build_raster_print_job(
        &rendered,
        RasterOptions { max_payload_bytes: 100, max_rows_per_command: 255, cut: false },
    )
    .expect("job should build");
    assert_eq!(&job.bytes[5..13], &[0x1D, 0x76, 0x30, 0x00, 44, 1, 1, 0]);
}

fn message(err: SlipbridgeError) -> String {
    match err {
        SlipbridgeError::InvalidArgument(m) => m,
        other => panic!("unexpected error {other:?}"),
    }
}

#[test]
fn empty_image_is_rejected() {
    let rendered = RenderedImage { width_px: 0, height_px: 0, bytes_per_row: 0, raster_data: vec![] };
    let err = build_raster_print_job(
        &rendered,
        RasterOptions { max_payload_bytes: 10, max_rows_per_command: 1, cut: true },
    )
    .expect_err("empty image");
    assert_eq!(message(err), "cannot build ESC/POS job for empty image");
}

#[test]
fn inconsistent_raster_is_rejected() {
    let rendered = RenderedImage { width_px: 8, height_px: 2, bytes_per_row: 1, raster_data: vec![0] };
    let err = build_raster_print_job(
        &rendered,
        RasterOptions { max_payload_bytes: 10, max_rows_per_command: 1, cut: true },
    )
    .expect_err("short raster");
    assert_eq!(message(err), "rendered raster payload length is inconsistent");
}

#[test]
fn too_wide_row_is_rejected() {
    let rendered = RenderedImage {
        width_px: 8,
        height_px: 1,
        bytes_per_row: 70_000,
        raster_data: vec![0; 70_000],
    };
    let err = build_raster_print_job(
        &rendered,
        RasterOptions { max_payload_bytes: 10, max_rows_per_command: 1, cut: true },
    )
    .expect_err("row too wide");
    assert_eq!(message(err), "image row is too wide for ESC/POS raster mode");
}

#[test]
fn overflowing_size_is_rejected() {
    let rendered = RenderedImage {
        width_px: 8,
        height_px: u32::MAX,
        bytes_per_row: usize::MAX / 2,
        raster_data: vec![],
    };
    let err = build_raster_print_job(
        &rendered,
        RasterOptions { max_payload_bytes: 10, max_rows_per_command: 1, cut: true },
    )
    .expect_err("overflow");
    assert_eq!(message(err), "image buffer overflow");
}
