use ray_trace::image::PixelBuffer;
use ray_trace::ppm::{encode_header, encode_ppm, pixel_lines, push_decimal};

fn text(bytes: Vec<u8>) -> String {
    String::from_utf8(bytes).unwrap()
}

#[test]
fn decimals_have_no_leading_zeros() {
    for n in [0usize, 7, 10, 99, 100, 255, 400, 123456789] {
        let mut out = b"x".to_vec();
        push_decimal(&mut out, n);
        assert_eq!(text(out), format!("x{}", n));
    }
}

#[test]
fn header_names_dimensions() {
    assert_eq!(text(encode_header(400, 225)), "P3\n400 225\n255\n");
    assert_eq!(text(encode_header(1, 0)), "P3\n1 0\n255\n");
}

#[test]
fn pixel_lines_run_from_last_triple() {
    let px = vec![0, 1, 2, 10, 20, 30, 255, 128, 7];
    assert_eq!(text(pixel_lines(&px)), "255 128 7\n10 20 30\n0 1 2\n");
    assert_eq!(text(pixel_lines(&Vec::new())), "");
}

#[test]
fn whole_file_is_top_down() {
    let mut img = PixelBuffer::new(2, 2);
    img.set_pixel(0, 0, (1, 1, 1));
    img.set_pixel(1, 0, (2, 2, 2));
    img.set_pixel(0, 1, (3, 3, 3));
    img.set_pixel(1, 1, (4, 4, 4));
    assert_eq!(
        text(encode_ppm(&img)),
        "P3\n2 2\n255\n4 4 4\n3 3 3\n2 2 2\n1 1 1\n"
    );
}

#[test]
fn black_image_file() {
    let img = PixelBuffer::new(3, 1);
    assert_eq!(text(encode_ppm(&img)), "P3\n3 1\n255\n0 0 0\n0 0 0\n0 0 0\n");
}

#[test]
fn same_image_same_bytes() {
    let mut a = PixelBuffer::new(2, 1);
    let mut b = PixelBuffer::new(2, 1);
    a.set_pixel(1, 0, (9, 8, 7));
    b.set_pixel(1, 0, (9, 8, 7));
    assert_eq!(encode_ppm(&a), encode_ppm(&b));
}
