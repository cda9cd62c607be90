use photomanip::image::{ColorImage, GrayImage, ImageType};
use photomanip::raster::decode;

// The sample data of the classic 24-by-7 grayscale test card, maxval 15.
fn feep_gray_pixels() -> Vec<u16> {
    vec![
        0, 0, 0, 0, 0, 0, 0, 0, 0, 0, 0, 0, 0, 0, 0, 0, 0, 0, 0, 0, 0, 0, 0, 0, //
        0, 3, 3, 3, 3, 0, 0, 7, 7, 7, 7, 0, 0, 11, 11, 11, 11, 0, 0, 15, 15, 15, 15, 0, //
        0, 3, 0, 0, 0, 0, 0, 7, 0, 0, 0, 0, 0, 11, 0, 0, 0, 0, 0, 15, 0, 0, 15, 0, //
        0, 3, 3, 3, 0, 0, 0, 7, 7, 7, 0, 0, 0, 11, 11, 11, 0, 0, 0, 15, 15, 15, 15, 0, //
        0, 3, 0, 0, 0, 0, 0, 7, 0, 0, 0, 0, 0, 11, 0, 0, 0, 0, 0, 15, 0, 0, 0, 0, //
        0, 3, 0, 0, 0, 0, 0, 7, 7, 7, 7, 0, 0, 11, 11, 11, 11, 0, 0, 15, 0, 0, 0, 0, //
        0, 0, 0, 0, 0, 0, 0, 0, 0, 0, 0, 0, 0, 0, 0, 0, 0, 0, 0, 0, 0, 0, 0, 0,
    ]
}

// The sample data of the classic 4-by-4 color test card, maxval 15,
// flat in (r, g, b) order.
fn feep_color_samples() -> Vec<u16> {
    vec![
        0, 0, 0, 0, 0, 0, 0, 0, 0, 15, 0, 15, //
        0, 0, 0, 0, 15, 7, 0, 0, 0, 0, 0, 0, //
        0, 0, 0, 0, 0, 0, 0, 15, 7, 0, 0, 0, //
        15, 0, 15, 0, 0, 0, 0, 0, 0, 0, 0, 0,
    ]
}

// An ascii rendering of samples, one token per sample.
fn ascii_body(samples: &[u16]) -> String {
    let words: Vec<String> = samples.iter().map(|s| format!("{}", s)).collect();
    words.join(" ")
}

fn feep_pgm() -> Vec<u8> {
    format!("P2\n24 7\n15\n{}", ascii_body(&feep_gray_pixels())).into_bytes()
}

fn feep_raw_pgm() -> Vec<u8> {
    let mut data = b"P5\n24 7\n15\n".to_vec();
    for s in feep_gray_pixels() {
        data.push(s as u8);
    }
    data
}

fn feep_raw_gimp_pgm() -> Vec<u8> {
    // the same card re-quantized to maxval 255: every sample scaled by 17
    let mut data = b"P5\n24 7\n255\n".to_vec();
    for s in feep_gray_pixels() {
        data.push((s * 17) as u8);
    }
    data
}

fn feep_ppm() -> Vec<u8> {
    format!("P3\n4 4\n15\n{}", ascii_body(&feep_color_samples())).into_bytes()
}

fn feep_raw_ppm() -> Vec<u8> {
    let mut data = b"P6\n4 4\n15\n".to_vec();
    for s in feep_color_samples() {
        data.push(s as u8);
    }
    data
}

fn feep_raw_gimp_ppm() -> Vec<u8> {
    let mut data = b"P6\n4 4\n255\n".to_vec();
    for s in feep_color_samples() {
        data.push((s * 17) as u8);
    }
    data
}

// A small color card in the three line-ending conventions.
fn wisdom_ppm(newline: &str) -> Vec<u8> {
    format!("P3{nl}3 2{nl}15{nl}1 2 3 4 5 6 7 8 9 10 11 12 13 14 15 0 1 2", nl = newline)
        .into_bytes()
}

fn make_gray_image() -> Box<GrayImage> {
    Box::new(GrayImage {
        width: 3,
        height: 4,
        maxval: 15,
        pixels: vec![1, 2, 3, 4, 5, 6, 7, 8, 9, 10, 11, 12],
    })
}

fn make_color_image() -> Box<ColorImage> {
    Box::new(ColorImage {
        width: 3,
        height: 4,
        maxval: 255,
        rpixels: vec![1, 2, 3, 4, 5, 6, 7, 8, 9, 10, 11, 12],
        gpixels: vec![2, 3, 4, 5, 6, 7, 8, 9, 10, 11, 12, 13],
        bpixels: vec![3, 4, 5, 6, 7, 8, 9, 10, 11, 12, 13, 14],
    })
}

#[test]
fn make_image() {
    let _ = make_gray_image();
    let _ = make_color_image();
}

#[test]
fn mutate_image() {
    let mut img = make_gray_image();
    let (w, h) = (img.width, img.height);
    assert_eq!(w, 3);
    assert_eq!(h, 4);

    img.pixels[2] = 69;

    assert_eq!(img.pixels[2], 69);
}

#[test]
fn open_valid_image_files() {
    // test all 4 variants of image
    let test_images: Vec<Vec<u8>> = vec![
        feep_ppm(),
        feep_pgm(),
        feep_raw_ppm(),
        feep_raw_pgm(),
    ];
    for i in &test_images {
        let good_img = decode(i);
        assert!(good_img.is_ok());
        println!("{:?}", good_img.unwrap());
    }
}

#[test]
fn open_color8_raw_image() {
    match decode(&feep_raw_ppm()).unwrap().0 {
        ImageType::Color(img) => {
            assert_eq!(img.rpixels.len(), 16);
            assert_eq!(img.gpixels.len(), 16);
            assert_eq!(img.bpixels.len(), 16);
            assert_eq!(img.rpixels[0], 0);
            assert_eq!(img.rpixels[3], 15);
            assert_eq!(img.gpixels[5], 15);
            assert_eq!(img.bpixels[10], 7);
        }
        x => {
            panic!("Parsed into wrong image type {:?}", x);
        }
    }
}

#[test]
fn open_non_image_file() {
    let not_image = decode(b"[package]\nname = \"photomanip\"\nedition = \"2021\"\n");
    assert!(not_image.is_err());
}

#[test]
fn handle_mac_line_endings() {
    let cr_img = decode(&wisdom_ppm("\r"));
    let unix_img = decode(&wisdom_ppm("\n"));
    assert_eq!(cr_img.unwrap(), unix_img.unwrap());
}

#[test]
fn handle_windows_line_endings() {
    let crlf_img = decode(&wisdom_ppm("\r\n"));
    let unix_img = decode(&wisdom_ppm("\n"));
    assert_eq!(crlf_img.unwrap(), unix_img.unwrap());
}

#[test]
fn raw_and_ascii_pgms_equal() {
    let raw_img = decode(&feep_raw_pgm()).unwrap();
    let ascii_img = decode(&feep_pgm()).unwrap();
    assert_eq!(raw_img, ascii_img);
}

#[test]
fn raw_and_ascii_ppms_equal() {
    let raw_img = decode(&feep_raw_ppm()).unwrap();
    let ascii_img = decode(&feep_ppm()).unwrap();
    assert_eq!(raw_img, ascii_img);
}

#[test]
fn different_maxval_equal_pgms() {
    let my_img = decode(&feep_raw_pgm()).unwrap();
    let gimp_img = decode(&feep_raw_gimp_pgm()).unwrap();
    assert!(my_img.equivalent(&gimp_img));
}

#[test]
fn different_maxval_equal_ppms() {
    let my_img = decode(&feep_raw_ppm()).unwrap();
    let gimp_img = decode(&feep_raw_gimp_ppm()).unwrap();
    assert!(my_img.equivalent(&gimp_img));
}
