use photomanip::args::ManipOption;
use photomanip::header::{ImageHeader, RasterType};
use photomanip::image::{ColorImage, FormatError, GrayImage, Image, ImageType};
use photomanip::manip::{apply, ImageManip};
use photomanip::encode::encode;
use photomanip::raster::decode;

fn gray(width: usize, height: usize, maxval: u16, pixels: Vec<u16>) -> Image {
    Image(ImageType::Grayscale(GrayImage { width, height, maxval, pixels }))
}

fn color(
    width: usize,
    height: usize,
    maxval: u16,
    rpixels: Vec<u16>,
    gpixels: Vec<u16>,
    bpixels: Vec<u16>,
) -> Image {
    Image(ImageType::Color(ColorImage { width, height, maxval, rpixels, gpixels, bpixels }))
}

#[test]
fn header_reads_dimensions_and_raster_offset() {
    let data = b"P5\n3 4\n255\nxxxxxxxxxxxx";
    let hdr = ImageHeader::read(data).unwrap();
    assert!(!hdr.is_color);
    assert!(!hdr.is_ascii_raster);
    assert_eq!(hdr.width, 3);
    assert_eq!(hdr.height, 4);
    assert_eq!(hdr.maxval, 255);
    assert_eq!(hdr.raster, b"xxxxxxxxxxxx");
}

#[test]
fn magic_classifies_all_four_kinds() {
    assert!(matches!(ImageHeader::get_kind(b"P2..."), Ok(_)));
    assert!(matches!(ImageHeader::get_kind(b"P3..."), Ok(_)));
    assert!(matches!(ImageHeader::get_kind(b"P5..."), Ok(_)));
    assert!(matches!(ImageHeader::get_kind(b"P6..."), Ok(_)));
    assert_eq!(ImageHeader::get_kind(b"P4..."), Err(FormatError::UnrecognizedMagic));
    assert_eq!(ImageHeader::get_kind(b"P"), Err(FormatError::UnrecognizedMagic));
}

#[test]
fn brighten_raw_gray_scenario() {
    // a 3-by-4 raw grayscale image with pixels 1..12, brightened by 10
    let mut data = b"P5\n3 4\n255\n".to_vec();
    for s in 1..=12u8 {
        data.push(s);
    }
    let img = decode(&data).unwrap();
    let bright = apply(&img, ManipOption::Brighten(10));
    match bright.0 {
        ImageType::Grayscale(g) => {
            assert_eq!(g.width, 3);
            assert_eq!(g.height, 4);
            assert_eq!(g.maxval, 255);
            let want: Vec<u16> = (11..=22).collect();
            assert_eq!(g.pixels, want);
        }
        x => panic!("expected a grayscale image, got {:?}", x),
    }
}

#[test]
fn unrecognized_magic_and_short_raster() {
    assert_eq!(decode(b"XX"), Err(FormatError::UnrecognizedMagic));
    assert_eq!(decode(b"P5\n3 4\n255\nxxxxx"), Err(FormatError::SizeMismatch));
}

#[test]
fn single_red_pixel_and_its_negative() {
    let img = decode(b"P3\n1 1\n255\n255 0 0").unwrap();
    match &img.0 {
        ImageType::Color(c) => {
            assert_eq!(c.rpixels, vec![255]);
            assert_eq!(c.gpixels, vec![0]);
            assert_eq!(c.bpixels, vec![0]);
        }
        x => panic!("expected a color image, got {:?}", x),
    }
    let neg = apply(&img, ManipOption::Negate);
    match neg.0 {
        ImageType::Color(c) => {
            assert_eq!(c.rpixels, vec![0]);
            assert_eq!(c.gpixels, vec![255]);
            assert_eq!(c.bpixels, vec![255]);
        }
        x => panic!("expected a color image, got {:?}", x),
    }
}

#[test]
fn round_trips_all_kinds() {
    let images = vec![
        gray(3, 2, 255, vec![0, 1, 2, 253, 254, 255]),
        gray(2, 2, 1000, vec![0, 999, 1000, 256]),
        color(2, 1, 255, vec![1, 2], vec![3, 4], vec![5, 6]),
        color(1, 2, 65535, vec![65535, 0], vec![256, 255], vec![1, 40000]),
    ];
    for img in &images {
        for kind in [RasterType::Ascii, RasterType::Raw] {
            let bytes = encode(img, kind);
            let back = decode(&bytes).unwrap();
            assert_eq!(&back, img);
        }
    }
}

#[test]
fn encode_writes_the_canonical_header() {
    let img = gray(1, 1, 15, vec![7]);
    assert_eq!(encode(&img, RasterType::Ascii), b"P2\n1 1\n15\n7".to_vec());
    assert_eq!(encode(&img, RasterType::Raw), b"P5\n1 1\n15\n\x07".to_vec());
    let c = color(1, 1, 255, vec![9], vec![10], vec![11]);
    assert_eq!(encode(&c, RasterType::Ascii), b"P3\n1 1\n255\n9 10 11".to_vec());
    assert_eq!(encode(&c, RasterType::Raw), b"P6\n1 1\n255\n\x09\x0a\x0b".to_vec());
}

#[test]
fn sixteen_bit_samples_are_big_endian() {
    let img = decode(b"P5\n1 1\n300\n\x01\x2c").unwrap();
    match img.0 {
        ImageType::Grayscale(g) => assert_eq!(g.pixels, vec![300]),
        x => panic!("expected a grayscale image, got {:?}", x),
    }
    let out = encode(&gray(1, 1, 300, vec![300]), RasterType::Raw);
    assert_eq!(out, b"P5\n1 1\n300\n\x01\x2c".to_vec());
}

#[test]
fn comments_between_tokens_are_skipped() {
    let plain = decode(b"P2\n2 2\n15\n1 2 3 4").unwrap();
    let commented = decode(b"P2\n# card\n2 2\n# levels\n15\n1 2 3 4").unwrap();
    let leading = decode(b"P2\n# before everything\n# twice, even\n2 2\n15\n1 2 3 4").unwrap();
    assert_eq!(commented, plain);
    assert_eq!(leading, plain);
}

#[test]
fn comment_after_mid_line_whitespace() {
    // a comment may open right after non-newline whitespace, too
    let plain = decode(b"P2\n2 2\n15\n1 2 3 4").unwrap();
    let commented = decode(b"P2\n2 2 # the dimensions\n15\n1 2 3 4").unwrap();
    assert_eq!(commented, plain);
}

#[test]
fn wide_samples_in_ascii_rasters() {
    let img = decode(b"P2\n2 1\n65535\n65535 300").unwrap();
    match img.0 {
        ImageType::Grayscale(g) => {
            assert_eq!(g.maxval, 65535);
            assert_eq!(g.pixels, vec![65535, 300]);
        }
        x => panic!("expected a grayscale image, got {:?}", x),
    }
    assert_eq!(decode(b"P2\n1 1\n65535\n65536"), Err(FormatError::InvalidAsciiRaster));
}

#[test]
fn every_error_kind_has_an_input() {
    assert_eq!(decode(b"QQ\n1 1\n15\n7"), Err(FormatError::UnrecognizedMagic));
    assert_eq!(decode(b"P5\n3 4"), Err(FormatError::TruncatedHeader));
    assert_eq!(decode(b"P5\nab 4\n255\n"), Err(FormatError::InvalidParam));
    assert_eq!(decode(b"P2\n2 1\n15\n1 2 3"), Err(FormatError::SizeMismatch));
    assert_eq!(decode(b"P2\n1 1\n15\nxy"), Err(FormatError::InvalidAsciiRaster));
}

#[test]
fn out_of_range_header_numbers_are_rejected() {
    assert_eq!(decode(b"P5\n0 4\n255\n"), Err(FormatError::InvalidParam));
    assert_eq!(decode(b"P5\n3 0\n255\n"), Err(FormatError::InvalidParam));
    assert_eq!(decode(b"P5\n1 1\n0\n\x00"), Err(FormatError::InvalidParam));
    assert_eq!(decode(b"P5\n1 1\n65536\n\x00\x00"), Err(FormatError::InvalidParam));
}

#[test]
fn negate_twice_is_identity() {
    let img = gray(2, 2, 200, vec![0, 1, 199, 200]);
    let back = apply(&apply(&img, ManipOption::Negate), ManipOption::Negate);
    assert_eq!(back, img);
    let c = color(1, 2, 15, vec![0, 15], vec![1, 14], vec![7, 8]);
    let cback = apply(&apply(&c, ManipOption::Negate), ManipOption::Negate);
    assert_eq!(cback, c);
}

#[test]
fn brighten_clamps_at_both_ends() {
    let img = gray(2, 1, 100, vec![10, 90]);
    let way_up = apply(&img, ManipOption::Brighten(usize::MAX));
    match way_up.0 {
        ImageType::Grayscale(g) => assert_eq!(g.pixels, vec![100, 100]),
        x => panic!("expected a grayscale image, got {:?}", x),
    }
    let way_down = img.brighten(-1000);
    match way_down.0 {
        ImageType::Grayscale(g) => assert_eq!(g.pixels, vec![0, 0]),
        x => panic!("expected a grayscale image, got {:?}", x),
    }
    let up_some = img.brighten(15);
    match up_some.0 {
        ImageType::Grayscale(g) => assert_eq!(g.pixels, vec![25, 100]),
        x => panic!("expected a grayscale image, got {:?}", x),
    }
}

#[test]
fn grayscale_of_gray_is_identity() {
    let img = gray(2, 2, 255, vec![5, 10, 15, 20]);
    assert_eq!(apply(&img, ManipOption::Grayscale), img);
}

#[test]
fn grayscale_uses_luma_weights() {
    let red = color(1, 1, 255, vec![255], vec![0], vec![0]);
    match apply(&red, ManipOption::Grayscale).0 {
        // round(0.299 * 255) == 76
        ImageType::Grayscale(g) => assert_eq!(g.pixels, vec![76]),
        x => panic!("expected a grayscale image, got {:?}", x),
    }
    let white = color(1, 1, 255, vec![255], vec![255], vec![255]);
    match apply(&white, ManipOption::Grayscale).0 {
        ImageType::Grayscale(g) => assert_eq!(g.pixels, vec![255]),
        x => panic!("expected a grayscale image, got {:?}", x),
    }
}

#[test]
fn contrast_stretches_the_histogram() {
    let img = gray(2, 1, 100, vec![10, 20]);
    match apply(&img, ManipOption::Contrast).0 {
        ImageType::Grayscale(g) => assert_eq!(g.pixels, vec![0, 100]),
        x => panic!("expected a grayscale image, got {:?}", x),
    }
    let flat = gray(2, 1, 100, vec![42, 42]);
    assert_eq!(apply(&flat, ManipOption::Contrast), flat);
}

#[test]
fn smooth_averages_with_edge_clamping() {
    let img = gray(2, 1, 15, vec![0, 9]);
    match apply(&img, ManipOption::Smooth).0 {
        // column sums 0+0+9 and 0+9+9, three identical rows, rounded by 9
        ImageType::Grayscale(g) => assert_eq!(g.pixels, vec![3, 6]),
        x => panic!("expected a grayscale image, got {:?}", x),
    }
    let lone = gray(1, 1, 15, vec![7]);
    assert_eq!(apply(&lone, ManipOption::Smooth), lone);
}

#[test]
fn sharpen_clamps_to_range() {
    let img = gray(2, 1, 15, vec![0, 9]);
    match apply(&img, ManipOption::Sharpen).0 {
        // 5*0 - 0 - 0 - 9 - 0 clamps to 0; 5*9 - 9 - 0 - 9 - 9 clamps to 15
        ImageType::Grayscale(g) => assert_eq!(g.pixels, vec![0, 15]),
        x => panic!("expected a grayscale image, got {:?}", x),
    }
}

#[test]
fn do_nothing_returns_the_image_unchanged() {
    let img = color(1, 1, 255, vec![1], vec![2], vec![3]);
    assert_eq!(apply(&img, ManipOption::DoNothing), img);
}

#[test]
fn equivalence_is_scaling_aware() {
    let small = gray(2, 1, 15, vec![0, 15]);
    let wide = gray(2, 1, 255, vec![0, 255]);
    let other = gray(2, 1, 255, vec![0, 254]);
    assert!(small.equivalent(&wide));
    assert!(!small.equivalent(&other));
    assert!(!small.equivalent(&color(2, 1, 15, vec![0, 15], vec![0, 15], vec![0, 15])));
}

#[test]
fn decode_accepts_samples_above_maxval() {
    // permissive like reference decoders: the value is passed through
    let img = decode(b"P2\n1 1\n15\n200").unwrap();
    match img.0 {
        ImageType::Grayscale(g) => assert_eq!(g.pixels, vec![200]),
        x => panic!("expected a grayscale image, got {:?}", x),
    }
}

#[test]
fn is_bounded_reports_over_range_samples() {
    let ok = decode(b"P2\n1 1\n15\n15").unwrap();
    assert!(ok.is_bounded());
    let over = decode(b"P2\n1 1\n15\n200").unwrap();
    assert!(!over.is_bounded());
}
