use ray_trace::image::{PixelBuffer, Scanline};

#[test]
fn new_buffer_is_black() {
    let img = PixelBuffer::new(4, 3);
    assert_eq!(img.bytes.len(), 36);
    assert!(img.bytes.iter().all(|&b| b == 0));
}

#[test]
fn pixel_offset_is_row_major() {
    let img = PixelBuffer::new(5, 4);
    assert_eq!(img.pixel_offset(0, 0), 0);
    assert_eq!(img.pixel_offset(2, 0), 6);
    assert_eq!(img.pixel_offset(0, 1), 15);
    assert_eq!(img.pixel_offset(4, 3), 3 * (3 * 5 + 4));
}

#[test]
fn set_pixel_writes_three_bytes() {
    let mut img = PixelBuffer::new(3, 2);
    img.set_pixel(1, 1, (10, 20, 30));
    assert_eq!(img.pixel(1, 1), (10, 20, 30));
    let mut expected = vec![0u8; 18];
    expected[12] = 10;
    expected[13] = 20;
    expected[14] = 30;
    assert_eq!(img.bytes, expected);
}

#[test]
fn scanline_pixels_are_column_ordered() {
    let mut line = Scanline::black(4, 3);
    assert_eq!(line.bytes, vec![0u8; 9]);
    line.set_pixel(2, (1, 2, 3));
    line.set_pixel(0, (7, 8, 9));
    assert_eq!(line.row, 4);
    assert_eq!(line.bytes, vec![7, 8, 9, 0, 0, 0, 1, 2, 3]);
}

#[test]
fn set_scanline_fills_one_row() {
    let mut img = PixelBuffer::new(2, 3);
    img.set_scanline(&Scanline { row: 1, bytes: vec![1, 2, 3, 4, 5, 6] });
    assert_eq!(img.bytes, vec![0, 0, 0, 0, 0, 0, 1, 2, 3, 4, 5, 6, 0, 0, 0, 0, 0, 0]);
}

fn rows() -> Vec<Scanline> {
    vec![
        Scanline { row: 0, bytes: vec![1, 1, 1, 2, 2, 2] },
        Scanline { row: 1, bytes: vec![3, 3, 3, 4, 4, 4] },
        Scanline { row: 2, bytes: vec![5, 5, 5, 6, 6, 6] },
    ]
}

#[test]
fn assembly_places_rows() {
    let img = PixelBuffer::assemble(2, 3, &rows()).unwrap();
    assert_eq!(img.width, 2);
    assert_eq!(img.height, 3);
    assert_eq!(img.bytes, vec![1, 1, 1, 2, 2, 2, 3, 3, 3, 4, 4, 4, 5, 5, 5, 6, 6, 6]);
}

#[test]
fn assembly_ignores_completion_order() {
    let in_order = PixelBuffer::assemble(2, 3, &rows()).unwrap();
    let mut shuffled = rows();
    shuffled.reverse();
    shuffled.swap(0, 1);
    let out_of_order = PixelBuffer::assemble(2, 3, &shuffled).unwrap();
    assert_eq!(in_order.bytes, out_of_order.bytes);
}

#[test]
fn missing_rows_stay_black() {
    let only_top = vec![Scanline { row: 2, bytes: vec![9, 9, 9, 9, 9, 9] }];
    let img = PixelBuffer::assemble(2, 3, &only_top).unwrap();
    assert_eq!(img.bytes, vec![0, 0, 0, 0, 0, 0, 0, 0, 0, 0, 0, 0, 9, 9, 9, 9, 9, 9]);
}

#[test]
fn assembly_rejects_misfit_scanlines() {
    let outside = vec![Scanline { row: 3, bytes: vec![0; 6] }];
    assert!(PixelBuffer::assemble(2, 3, &outside).is_none());
    let short = vec![Scanline { row: 0, bytes: vec![0; 5] }];
    assert!(PixelBuffer::assemble(2, 3, &short).is_none());
    assert!(PixelBuffer::assemble(usize::MAX, 2, &Vec::new()).is_none());
}
