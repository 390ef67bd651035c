use mandelbrot::pgm::{genPgmImage, write_decimal, write_sample};

fn decimal_text(n: usize) -> String {
    let mut out = Vec::new();
    write_decimal(&mut out, n);
    String::from_utf8(out).unwrap()
}

fn sample_text(level: u8) -> String {
    let mut out = Vec::new();
    write_sample(&mut out, level);
    String::from_utf8(out).unwrap()
}

#[test]
fn all_zero_two_by_two_image() {
    let image: Vec<Vec<u8>> = vec![vec![0, 0], vec![0, 0]];
    let bytes = genPgmImage(&image, 2, 2);
    assert_eq!(bytes, b"P2\n2 2\n255\n000 000 \n000 000 \n".to_vec());
}

#[test]
fn decimal_numerals() {
    assert_eq!(decimal_text(0), "0");
    assert_eq!(decimal_text(7), "7");
    assert_eq!(decimal_text(9), "9");
    assert_eq!(decimal_text(10), "10");
    assert_eq!(decimal_text(99), "99");
    assert_eq!(decimal_text(100), "100");
    assert_eq!(decimal_text(1080), "1080");
    assert_eq!(decimal_text(1920), "1920");
    assert_eq!(decimal_text(4_294_967_295), "4294967295");
    assert_eq!(decimal_text(usize::MAX), format!("{}", usize::MAX));
}

#[test]
fn decimal_is_appended() {
    let mut out = b"w=".to_vec();
    write_decimal(&mut out, 640);
    write_decimal(&mut out, 0);
    assert_eq!(out, b"w=6400".to_vec());
}

#[test]
fn samples_have_three_digits_and_a_space() {
    assert_eq!(sample_text(0), "000 ");
    assert_eq!(sample_text(7), "007 ");
    assert_eq!(sample_text(10), "010 ");
    assert_eq!(sample_text(42), "042 ");
    assert_eq!(sample_text(99), "099 ");
    assert_eq!(sample_text(100), "100 ");
    assert_eq!(sample_text(232), "232 ");
    assert_eq!(sample_text(255), "255 ");
}

#[test]
fn every_sample_matches_zero_padded_formatting() {
    for level in 0..=255u8 {
        assert_eq!(sample_text(level), format!("{:03} ", level));
    }
}

#[test]
fn sample_is_appended() {
    let mut out = b"255\n".to_vec();
    write_sample(&mut out, 5);
    write_sample(&mut out, 250);
    assert_eq!(out, b"255\n005 250 ".to_vec());
}

#[test]
fn header_declares_width_then_height() {
    let image: Vec<Vec<u8>> = Vec::new();
    assert_eq!(genPgmImage(&image, 1920, 1080), b"P2\n1920 1080\n255\n".to_vec());
    assert_eq!(genPgmImage(&image, 0, 0), b"P2\n0 0\n255\n".to_vec());
}

#[test]
fn rows_are_written_top_to_bottom() {
    let image: Vec<Vec<u8>> = vec![vec![1, 20, 255], vec![0, 100, 9]];
    let bytes = genPgmImage(&image, 3, 2);
    assert_eq!(bytes, b"P2\n3 2\n255\n001 020 255 \n000 100 009 \n".to_vec());
}

#[test]
fn rows_are_written_as_they_are() {
    let image: Vec<Vec<u8>> = vec![vec![1], vec![], vec![2, 3, 4]];
    let bytes = genPgmImage(&image, 2, 2);
    assert_eq!(bytes, b"P2\n2 2\n255\n001 \n\n002 003 004 \n".to_vec());
}

#[test]
fn empty_rows_are_bare_line_feeds() {
    let image: Vec<Vec<u8>> = vec![vec![], vec![], vec![]];
    assert_eq!(genPgmImage(&image, 0, 3), b"P2\n0 3\n255\n\n\n\n".to_vec());
}

#[test]
fn encoding_twice_gives_identical_bytes() {
    let image: Vec<Vec<u8>> = vec![vec![5, 6, 7, 8], vec![9, 10, 11, 12]];
    assert_eq!(genPgmImage(&image, 4, 2), genPgmImage(&image, 4, 2));
}

#[test]
fn encoded_length_of_a_full_grid() {
    let image: Vec<Vec<u8>> = vec![vec![200; 30]; 12];
    let bytes = genPgmImage(&image, 30, 12);
    assert_eq!(bytes.len(), "P2\n30 12\n255\n".len() + 12 * (30 * 4 + 1));
}
