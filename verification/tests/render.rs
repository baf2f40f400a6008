use slipbridge::escpos::{build_raster_print_job, RasterOptions};
use slipbridge::render::{flatten_alpha, pack_bilevel_rows, render_image_for_thermal, RenderOptions, RgbaPixels};

fn rgba_from_fn(width: u32, height: u32, f: impl Fn(u32, u32) -> [u8; 4]) -> RgbaPixels {
    let mut data = Vec::new();
    for y in 0..height {
        for x in 0..width {
            data.extend_from_slice(&f(x, y));
        }
    }
    RgbaPixels { width, height, data }
}

#[test]
fn packs_rows_into_expected_bytes() {
    let image = rgba_from_fn(8, 1, |x, _| if x < 4 { [0, 0, 0, 255] } else { [255, 255, 255, 255] });

    let rendered = render_image_for_thermal(image, RenderOptions { max_width: 8 }, 1)
        .expect("render should succeed");

    assert_eq!(rendered.bytes_per_row, 1);
    assert_eq!(rendered.raster_data, vec![0b1111_0000]);
}

#[test]
fn transparent_pixels_become_white() {
    let image = RgbaPixels { width: 2, height: 1, data: vec![0, 0, 0, 0, 10, 20, 30, 128] };
    let flat = flatten_alpha(image);
    assert_eq!(flat.data, vec![255, 255, 255, 255, 132, 137, 142, 255]);
}

#[test]
fn pack_pads_the_last_byte_of_a_row() {
    // 10 dots wide, 2 rows: dark, light, ... alternating per row start
    let mut luma = vec![255u8; 20];
    luma[0] = 0;
    luma[9] = 0;
    luma[10] = 0;
    let packed = pack_bilevel_rows(10, 2, &luma);
    assert_eq!(packed, vec![0b1000_0000, 0b0100_0000, 0b1000_0000, 0b0000_0000]);
}

#[test]
fn wide_images_are_scaled_down() {
    let image = rgba_from_fn(20, 10, |_, _| [0, 0, 0, 255]);
    let rendered = render_image_for_thermal(image, RenderOptions { max_width: 10 }, 5)
        .expect("render should succeed");
    assert_eq!(rendered.width_px, 10);
    assert_eq!(rendered.height_px, 5);
    assert_eq!(rendered.bytes_per_row, 2);
    assert_eq!(rendered.raster_data, vec![0xFF, 0xC0].repeat(5));
}

#[test]
fn zero_max_width_is_rejected() {
    let image = rgba_from_fn(2, 2, |_, _| [0, 0, 0, 255]);
    let err = render_image_for_thermal(image, RenderOptions { max_width: 0 }, 1).expect_err("no width");
    assert_eq!(err.to_string(), "Invalid argument: render max width must be > 0");
}

#[test]
fn empty_image_is_not_rendered() {
    let image = RgbaPixels { width: 0, height: 3, data: vec![] };
    let err = render_image_for_thermal(image, RenderOptions { max_width: 8 }, 1).expect_err("empty");
    assert_eq!(err.to_string(), "Invalid argument: image has zero dimensions");
}

#[test]
fn rendered_images_make_jobs() {
    let image = rgba_from_fn(30, 7, |x, y| if (x + y) % 3 == 0 { [0, 0, 0, 255] } else { [255, 255, 255, 90] });
    let rendered = render_image_for_thermal(image, RenderOptions { max_width: 16 }, 4).expect("render");
    assert_eq!((rendered.width_px, rendered.height_px, rendered.bytes_per_row), (16, 4, 2));
    let options = RasterOptions { max_payload_bytes: 4, max_rows_per_command: 255, cut: false };
    let job = build_raster_print_job(&rendered, options).expect("a rendered image makes a job");
    assert_eq!(job.rows_per_chunk, vec![2, 2]);
    assert_eq!(job.bytes.len(), 5 + 8 * 2 + 8 + 3);
}
