use raytracer::framebuffer::{Framebuffer, Pixel};
use raytracer::image::{header_bytes, read_header, Image, PpmError, PpmHeader, PpmKind, Rgb};
use raytracer::numbers::IntErrorKind;
use raytracer::work_split::{thread_photons, thread_rows};

fn ppm(header: &str, body: &[u8]) -> Vec<u8> {
    let mut v = header.as_bytes().to_vec();
    v.extend_from_slice(body);
    v
}

#[test]
fn reads_a_one_byte_sample_image() {
    let bytes = ppm("P6\n2 1\n255\n", &[1, 2, 3, 4, 5, 6, 99]);
    let img = Image::from_ppm(&bytes).unwrap();
    assert_eq!((img.width(), img.height(), img.max_value()), (2, 1, 255));
    assert_eq!(img.pixel(0, 0), Rgb { r: 1, g: 2, b: 3 });
    assert_eq!(img.pixel(1, 0), Rgb { r: 4, g: 5, b: 6 });
}

#[test]
fn reads_a_two_byte_sample_image() {
    let bytes = ppm("P6 1 1 65535\t", &[1, 2, 3, 4, 5, 6]);
    let img = Image::from_ppm(&bytes).unwrap();
    assert_eq!(img.pixel(0, 0), Rgb { r: 258, g: 772, b: 1286 });
}

#[test]
fn coordinates_wrap_around() {
    let bytes = ppm("P6\n2 2\n255\n", &[0, 0, 0, 1, 1, 1, 2, 2, 2, 3, 3, 3]);
    let img = Image::from_ppm(&bytes).unwrap();
    assert_eq!(img.get_xy(3, 2), Rgb { r: 1, g: 1, b: 1 });
    assert_eq!(img.get_xy(2, 3), Rgb { r: 2, g: 2, b: 2 });
    assert_eq!(img.get_xy(1, 1), img.pixel(1, 1));
}

#[test]
fn ppm_errors() {
    assert!(matches!(Image::from_ppm(b"P3\n1 1\n255\n"), Err(PpmError::NotP6)));
    assert!(matches!(Image::from_ppm(b"P6\n1 1\n255"), Err(PpmError::UnexpectedEnd)));
    assert!(matches!(Image::from_ppm(b"P6\n1 1\n255\n\x01\x02"), Err(PpmError::UnexpectedEnd)));
    assert!(matches!(Image::from_ppm(b"P6\nx 1\n255\n"), Err(PpmError::BadNumber(IntErrorKind::InvalidDigit))));
    assert!(matches!(Image::from_ppm(b"P6\n\n1 255\n"), Err(PpmError::BadNumber(IntErrorKind::Empty))));
}

#[test]
fn written_header_reads_back() {
    let h = header_bytes(PpmKind::Rgb, 640, 480);
    assert_eq!(h, b"P6\n640 480\n255\n".to_vec());
    assert_eq!(header_bytes(PpmKind::Grey, 7, 0), b"P5\n7 0\n255\n".to_vec());
    let (header, start) = read_header(&h).unwrap();
    assert_eq!(header, PpmHeader { width: 640, height: 480, max_value: 255 });
    assert_eq!(start, h.len());
}

#[test]
fn framebuffer_plots_and_reads() {
    let blank = Pixel { colour: 0u8, depth: 0u16 };
    let mut fb: Framebuffer<u8, u16> = Framebuffer::new(3, 2, blank);
    fb.plot_pixel(2, 1, &7);
    fb.plot_depth(2, 1, 9);
    fb.plot_depth(0, 0, 4);
    assert_eq!(fb.get_colour(2, 1), 7);
    assert_eq!(fb.get_depth(2, 1), 9);
    assert_eq!(fb.get_depth(0, 0), 4);
    assert_eq!(fb.get_colour(0, 0), 0);
    assert_eq!(fb.pixel_list().len(), 6);
}

#[test]
fn framebuffers_stack_top_to_bottom() {
    let blank = Pixel { colour: 0u8, depth: 0u8 };
    let mut top = Framebuffer::new(2, 1, blank);
    top.plot_pixel(1, 0, &1);
    let mut bottom = Framebuffer::new(2, 2, blank);
    bottom.plot_pixel(0, 1, &2);
    let all = Framebuffer::combine_rows(vec![top, bottom]);
    assert_eq!((all.width, all.height), (2, 3));
    assert_eq!(all.get_colour(1, 0), 1);
    assert_eq!(all.get_colour(0, 2), 2);
    assert_eq!(all.get_colour(0, 1), 0);
}

#[test]
fn rows_and_photons_are_shared_out() {
    assert_eq!(thread_rows(10, 3, 0), (0, 3));
    assert_eq!(thread_rows(10, 3, 1), (3, 6));
    assert_eq!(thread_rows(10, 3, 2), (6, 10));
    assert_eq!(thread_rows(2, 4, 3), (0, 2));
    let total: u32 = (0..4).map(|i| thread_photons(1001, 4, i)).sum();
    assert_eq!(total, 1001);
    assert_eq!(thread_photons(1001, 4, 3), 251);
}
