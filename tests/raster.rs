use lf_watermark::color::{rgb_to_ycbcr, Rgb, LUMA_SCALE};
use lf_watermark::raster::{Chroma, Raster, RasterError};

fn px(r: u8, g: u8, b: u8) -> Rgb {
    Rgb { r, g, b }
}

fn sample() -> Raster {
    Raster::new(
        3,
        2,
        vec![
            px(255, 255, 255),
            px(254, 0, 0),
            px(0, 255, 1),
            px(0, 0, 254),
            px(0, 0, 0),
            px(128, 128, 128),
        ],
    )
    .unwrap()
}

#[test]
fn new_checks_pixel_count() {
    assert!(matches!(
        Raster::new(2, 2, vec![px(0, 0, 0); 3]),
        Err(RasterError::SizeMismatch)
    ));
    let r = Raster::new(2, 1, vec![px(1, 2, 3), px(4, 5, 6)]).unwrap();
    assert_eq!((r.width(), r.height()), (2, 1));
}

#[test]
fn pixels_are_row_major() {
    let r = sample();
    assert_eq!(r.pixel(0, 0), px(255, 255, 255));
    assert_eq!(r.pixel(2, 0), px(0, 255, 1));
    assert_eq!(r.pixel(0, 1), px(0, 0, 254));
    assert_eq!(r.pixel(2, 1), px(128, 128, 128));
}

#[test]
fn planes_follow_pixels() {
    let r = sample();
    let planes = r.to_planes();
    assert_eq!(planes.luma.len(), 6);
    assert_eq!(planes.luma[1], 76);
    assert_eq!(planes.chroma[1], Chroma { cb: 85, cr: 255 });
    for (i, p) in r.pixels().iter().enumerate() {
        let c = rgb_to_ycbcr(*p);
        assert_eq!(planes.luma[i], c.y);
        assert_eq!(planes.chroma[i], Chroma { cb: c.cb, cr: c.cr });
    }
}

#[test]
fn planes_rebuild_the_sample() {
    let r = sample();
    let planes = r.to_planes();
    let luma: Vec<i64> = planes.luma.iter().map(|y| *y as i64 * LUMA_SCALE).collect();
    let back = Raster::from_planes(3, 2, &luma, &planes.chroma).unwrap();
    assert_eq!((back.width(), back.height()), (3, 2));
    assert_eq!(back.pixels(), r.pixels());
}

#[test]
fn uniform_luma_shift_brightens_gray() {
    let r = Raster::new(2, 1, vec![px(100, 100, 100), px(10, 10, 10)]).unwrap();
    let planes = r.to_planes();
    let luma: Vec<i64> = planes
        .luma
        .iter()
        .map(|y| *y as i64 * LUMA_SCALE + 5_350)
        .collect();
    let out = Raster::from_planes(2, 1, &luma, &planes.chroma).unwrap();
    assert_eq!(out.pixels(), &vec![px(105, 105, 105), px(15, 15, 15)]);
}

#[test]
fn from_planes_checks_lengths() {
    let chroma = vec![Chroma { cb: 128, cr: 128 }; 4];
    assert!(matches!(
        Raster::from_planes(2, 2, &vec![0; 3], &chroma),
        Err(RasterError::SizeMismatch)
    ));
    assert!(matches!(
        Raster::from_planes(2, 2, &vec![0; 4], &chroma[..3].to_vec()),
        Err(RasterError::SizeMismatch)
    ));
}

#[test]
fn empty_raster_is_handled() {
    let r = Raster::new(0, 0, vec![]).unwrap();
    let planes = r.to_planes();
    assert!(planes.luma.is_empty() && planes.chroma.is_empty());
    let back = Raster::from_planes(0, 0, &vec![], &planes.chroma).unwrap();
    assert_eq!((back.width(), back.height()), (0, 0));
    assert!(back.pixels().is_empty());
    assert_eq!(r.squared_error_sum(&back), Ok(0));
}

#[test]
fn single_pixel_raster_is_handled() {
    let r = Raster::new(1, 1, vec![px(254, 0, 0)]).unwrap();
    let planes = r.to_planes();
    let luma = vec![planes.luma[0] as i64 * LUMA_SCALE];
    let back = Raster::from_planes(1, 1, &luma, &planes.chroma).unwrap();
    assert_eq!(back.pixel(0, 0), px(254, 0, 0));
}

#[test]
fn squared_error_sum_exact() {
    let a = Raster::new(2, 1, vec![px(0, 0, 0), px(10, 20, 30)]).unwrap();
    let b = Raster::new(2, 1, vec![px(3, 0, 4), px(10, 25, 28)]).unwrap();
    assert_eq!(a.squared_error_sum(&b), Ok(9 + 16 + 25 + 4));
    assert_eq!(a.squared_error_sum(&a), Ok(0));
    let worst_a = Raster::new(1, 1, vec![px(0, 0, 0)]).unwrap();
    let worst_b = Raster::new(1, 1, vec![px(255, 255, 255)]).unwrap();
    assert_eq!(worst_a.squared_error_sum(&worst_b), Ok(3 * 255 * 255));
}

#[test]
fn squared_error_sum_needs_equal_dimensions() {
    let a = Raster::new(2, 1, vec![px(0, 0, 0); 2]).unwrap();
    let b = Raster::new(1, 2, vec![px(0, 0, 0); 2]).unwrap();
    assert_eq!(a.squared_error_sum(&b), Err(RasterError::DimensionMismatch));
}

#[test]
fn psnr_of_small_perturbation_exceeds_twenty_db() {
    let a = sample();
    let planes = a.to_planes();
    let luma: Vec<i64> = planes.luma.iter().map(|y| *y as i64 * LUMA_SCALE + 2_000).collect();
    let b = Raster::from_planes(3, 2, &luma, &planes.chroma).unwrap();
    let sse = a.squared_error_sum(&b).unwrap() as f64;
    let mse = sse / (3.0 * 6.0);
    let psnr = 10.0 * (255.0f64 * 255.0 / mse).log10();
    assert!(psnr > 20.0, "PSNR: {}", psnr);
}

#[test]
fn planes_are_deterministic() {
    let r = sample();
    let first = r.to_planes();
    let second = r.to_planes();
    assert_eq!(first.luma, second.luma);
    assert_eq!(first.chroma, second.chroma);
    let luma: Vec<i64> = first.luma.iter().map(|y| *y as i64 * LUMA_SCALE + 535).collect();
    let a = Raster::from_planes(3, 2, &luma, &first.chroma).unwrap();
    let b = Raster::from_planes(3, 2, &luma, &second.chroma).unwrap();
    assert_eq!(a.pixels(), b.pixels());
}
