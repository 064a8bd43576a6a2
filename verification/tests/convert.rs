use bytes::Bytes;
use joy::color::{full_to_limited_c, full_to_limited_y, rgb_to_u, rgb_to_v, rgb_to_y};
use joy::convert::{check_len, decoded_to_i420, to_i420, I420Buffer, JpegImage};
use joy::error::MediaError;
use joy::jpeg::is_decodable;
use joy::time::{Epoch, Timestamp};
use joy::video::{PixelFormat, VideoFrame};

/// Builds a frame with the given format and payload.
fn frame(format: PixelFormat, width: u32, height: u32, data: Vec<u8>) -> VideoFrame {
    VideoFrame {
        ts: Timestamp::now(&mut Epoch::start()),
        format,
        width,
        height,
        data: Bytes::from(data),
    }
}

/// A baseline JPEG of one colour: luma `128 + shift` for a shift from 32 to 63,
/// or 128 for zero, and neutral chroma.
fn flat_jpeg(width: u16, height: u16, shift: u8) -> Vec<u8> {
    let mut out = vec![0xff, 0xd8];
    // One quantization table of eights, so that a DC step is one brightness step.
    out.extend([0xff, 0xdb, 0, 67, 0]);
    out.extend([8; 64]);
    // Baseline, eight bits, three components without subsampling.
    out.extend([0xff, 0xc0, 0, 17, 8]);
    out.extend(height.to_be_bytes());
    out.extend(width.to_be_bytes());
    out.extend([3, 1, 0x11, 0, 2, 0x11, 0, 3, 0x11, 0]);
    // DC codes: `0` for no difference, `10` for a six-bit difference.
    out.extend([0xff, 0xc4, 0, 21, 0x00, 1, 1]);
    out.extend([0; 14]);
    out.extend([0, 6]);
    // AC code: `0` for the end of a block.
    out.extend([0xff, 0xc4, 0, 20, 0x10, 1]);
    out.extend([0; 15]);
    out.push(0);
    // The scan.
    out.extend([0xff, 0xda, 0, 12, 3, 1, 0x00, 2, 0x00, 3, 0x00, 0, 63, 0]);
    let blocks = (width as usize).div_ceil(8) * (height as usize).div_ceil(8);
    let mut bits: Vec<u8> = Vec::new();
    for block in 0..blocks {
        if block == 0 && shift > 0 {
            bits.extend([1, 0]);
            for i in (0..6).rev() {
                bits.push((shift >> i) & 1);
            }
        } else {
            bits.push(0);
        }
        // The rest of the luma block, then the two chroma blocks.
        bits.extend([0; 5]);
    }
    while bits.len() % 8 != 0 {
        bits.push(1);
    }
    for byte in bits.chunks(8) {
        let value = byte.iter().fold(0u8, |acc, bit| (acc << 1) | bit);
        out.push(value);
        if value == 0xff {
            out.push(0);
        }
    }
    out.extend([0xff, 0xd9]);
    out
}

/// A JPEG stream without differences, hence mid-gray: a frame header with
/// `marker` and one component per sampling factor pair in `factors`, `extra`
/// between it and the scans, a first scan with the first `first` components and
/// one scan for each of the others, each with `blocks` bytes of blocks.
fn layered_jpeg(
    marker: u8,
    (width, height): (u16, u16),
    factors: &[u8],
    first: usize,
    extra: &[u8],
    blocks: usize,
) -> Vec<u8> {
    let mut out = vec![0xff, 0xd8];
    out.extend([0xff, 0xdb, 0, 67, 0]);
    out.extend([8; 64]);
    let count = factors.len() as u8;
    out.extend([0xff, marker, 0, 8 + 3 * count, 8]);
    out.extend(height.to_be_bytes());
    out.extend(width.to_be_bytes());
    out.push(count);
    for (i, factor) in factors.iter().enumerate() {
        out.extend([i as u8 + 1, *factor, 0]);
    }
    out.extend([0xff, 0xc4, 0, 21, 0x00, 1, 1]);
    out.extend([0; 14]);
    out.extend([0, 6]);
    out.extend([0xff, 0xc4, 0, 20, 0x10, 1]);
    out.extend([0; 15]);
    out.push(0);
    out.extend(extra);
    let all: Vec<u8> = (1..=count).collect();
    let mut scans = vec![all[..first].to_vec()];
    scans.extend(all[first..].iter().map(|id| vec![*id]));
    for ids in scans {
        out.extend([0xff, 0xda, 0, 6 + 2 * ids.len() as u8, ids.len() as u8]);
        for id in &ids {
            out.extend([*id, 0x00]);
        }
        out.extend([0, if marker == 0xc2 { 0 } else { 63 }, 0]);
        out.extend(vec![0; blocks]);
    }
    out.extend([0xff, 0xd9]);
    out
}

fn message(r: Result<(), MediaError>) -> String {
    match r {
        Err(MediaError::Convert(m)) => m,
        other => panic!("not a conversion error: {other:?}"),
    }
}

#[test]
fn rgb24_solid_white_hits_bt601_limits() {
    let f = frame(PixelFormat::Rgb24, 4, 2, vec![255; 4 * 2 * 3]);
    let mut buf = I420Buffer::new();
    to_i420(&f, &mut buf).expect("convert");

    // Limited-range white: Y=235, chroma neutral 128 (±1 for rounding).
    assert!(
        buf.y().iter().all(|&y| (234..=236).contains(&y)),
        "{:?}",
        buf.y()
    );
    assert!(buf.u().iter().all(|&u| (127..=129).contains(&u)));
    assert!(buf.v().iter().all(|&v| (127..=129).contains(&v)));
}

#[test]
fn rgb24_solid_black_hits_bt601_limits() {
    let f = frame(PixelFormat::Rgb24, 4, 2, vec![0; 4 * 2 * 3]);
    let mut buf = I420Buffer::new();
    to_i420(&f, &mut buf).expect("convert");

    assert!(buf.y().iter().all(|&y| (15..=17).contains(&y)));
    assert!(buf.u().iter().all(|&u| (127..=129).contains(&u)));
    assert!(buf.v().iter().all(|&v| (127..=129).contains(&v)));
}

#[test]
fn rgb24_pure_red_has_high_cr() {
    let f = frame(PixelFormat::Rgb24, 4, 2, [255u8, 0, 0].repeat(4 * 2));
    let mut buf = I420Buffer::new();
    to_i420(&f, &mut buf).expect("convert");

    // BT.601 red: Y≈81, Cb≈90, Cr≈240.
    assert!(
        buf.y().iter().all(|&y| (79..=83).contains(&y)),
        "{:?}",
        buf.y()
    );
    assert!(
        buf.u().iter().all(|&u| (88..=92).contains(&u)),
        "{:?}",
        buf.u()
    );
    assert!(
        buf.v().iter().all(|&v| (238..=241).contains(&v)),
        "{:?}",
        buf.v()
    );
}

#[test]
fn yuyv_copies_luma_and_averages_chroma_rows() {
    // 2x2 image, 2 rows of one pixel pair each.
    // Row 0: Y0=10 U=100 Y1=20 V=200; row 1: Y0=30 U=120 Y1=40 V=220.
    let f = frame(
        PixelFormat::Yuyv,
        2,
        2,
        vec![10, 100, 20, 200, 30, 120, 40, 220],
    );
    let mut buf = I420Buffer::new();
    to_i420(&f, &mut buf).expect("convert");

    assert_eq!(buf.y(), &[10, 20, 30, 40]);
    assert_eq!(buf.u(), &[110]); // avg(100, 120)
    assert_eq!(buf.v(), &[210]); // avg(200, 220)
}

#[test]
fn nv12_deinterleaves_chroma() {
    // 2x2: Y plane [1,2,3,4], UV plane [U=50, V=60].
    let f = frame(PixelFormat::Nv12, 2, 2, vec![1, 2, 3, 4, 50, 60]);
    let mut buf = I420Buffer::new();
    to_i420(&f, &mut buf).expect("convert");

    assert_eq!(buf.y(), &[1, 2, 3, 4]);
    assert_eq!(buf.u(), &[50]);
    assert_eq!(buf.v(), &[60]);
}

#[test]
fn luma8_fills_neutral_chroma() {
    let f = frame(PixelFormat::Luma8, 2, 2, vec![9, 8, 7, 6]);
    let mut buf = I420Buffer::new();
    to_i420(&f, &mut buf).expect("convert");

    assert_eq!(buf.y(), &[9, 8, 7, 6]);
    assert_eq!(buf.u(), &[128]);
    assert_eq!(buf.v(), &[128]);
}

#[test]
fn odd_dimensions_are_rejected() {
    let f = frame(PixelFormat::Rgb24, 3, 2, vec![0; 3 * 2 * 3]);
    let mut buf = I420Buffer::new();
    assert!(matches!(to_i420(&f, &mut buf), Err(MediaError::Convert(_))));
}

#[test]
fn short_payload_is_rejected() {
    let f = frame(PixelFormat::Rgb24, 4, 2, vec![0; 5]);
    let mut buf = I420Buffer::new();
    assert!(matches!(to_i420(&f, &mut buf), Err(MediaError::Convert(_))));
}

#[test]
fn buffer_is_reused_across_resolutions() {
    let mut buf = I420Buffer::new();
    let big = frame(PixelFormat::Luma8, 4, 4, vec![1; 16]);
    to_i420(&big, &mut buf).expect("convert big");
    assert_eq!(buf.dimensions(), (4, 4));

    let small = frame(PixelFormat::Luma8, 2, 2, vec![2; 4]);
    to_i420(&small, &mut buf).expect("convert small");
    assert_eq!(buf.dimensions(), (2, 2));
    assert_eq!(buf.y(), &[2, 2, 2, 2]);
}

#[test]
fn mjpeg_decodes_to_i420() {
    // A tiny valid JPEG of a 16x16 mid-gray image.
    let f = frame(PixelFormat::Mjpeg, 16, 16, flat_jpeg(16, 16, 0));
    let mut buf = I420Buffer::new();
    to_i420(&f, &mut buf).expect("convert");
    assert_eq!(buf.dimensions(), (16, 16));

    // Mid-gray: luma clustered near 128 scaled to limited range (≈126), chroma
    // neutral.
    let y_avg: u32 = buf.y().iter().map(|&y| y as u32).sum::<u32>() / 256;
    assert!((115..=140).contains(&y_avg), "y_avg={y_avg}");
    assert!(buf.u().iter().all(|&u| (120..=136).contains(&u)));
    assert!(buf.v().iter().all(|&v| (120..=136).contains(&v)));
}

#[test]
fn mjpeg_luma_is_compressed_to_limited_range() {
    let f = frame(PixelFormat::Mjpeg, 8, 8, flat_jpeg(8, 8, 40));
    let mut buf = I420Buffer::new();
    to_i420(&f, &mut buf).expect("convert");
    // 128 + 40 = 168 at full range.
    assert_eq!(buf.y(), &[160; 64]);
    assert_eq!(buf.u(), &[128; 16]);
    assert_eq!(buf.v(), &[128; 16]);
}

#[test]
fn mjpeg_dimensions_come_from_the_image() {
    // The frame header disagrees, and even has a zero dimension.
    let f = frame(PixelFormat::Mjpeg, 0, 7, flat_jpeg(24, 8, 0));
    let mut buf = I420Buffer::new();
    to_i420(&f, &mut buf).expect("convert");
    assert_eq!(buf.dimensions(), (24, 8));
    assert_eq!(buf.strides(), (24, 12, 12));
}

#[test]
fn odd_mjpeg_dimensions_are_rejected() {
    let f = frame(PixelFormat::Mjpeg, 16, 16, flat_jpeg(15, 16, 0));
    let mut buf = I420Buffer::new();
    assert_eq!(
        message(to_i420(&f, &mut buf)),
        "MJPEG dimensions unsupported for 4:2:0 output: 15x16"
    );
}

#[test]
fn garbage_is_not_a_jpeg() {
    let f = frame(PixelFormat::Mjpeg, 16, 16, vec![1, 2, 3, 4]);
    let mut buf = I420Buffer::new();
    assert!(message(to_i420(&f, &mut buf)).starts_with("MJPEG decode failed: "));
    assert_eq!(buf.dimensions(), (0, 0));
}

#[test]
fn decoded_images_are_checked_and_subsampled() {
    let mut buf = I420Buffer::default();
    assert_eq!(
        message(decoded_to_i420(Err("bad marker".to_owned()), &mut buf)),
        "MJPEG decode failed: bad marker"
    );
    let image = JpegImage { pixels: vec![], dimensions: None };
    assert_eq!(
        message(decoded_to_i420(Ok(image), &mut buf)),
        "MJPEG decode produced no image info"
    );
    let image = JpegImage { pixels: vec![], dimensions: Some((0, 2)) };
    assert_eq!(
        message(decoded_to_i420(Ok(image), &mut buf)),
        "MJPEG dimensions unsupported for 4:2:0 output: 0x2"
    );
    let image = JpegImage { pixels: vec![0; 11], dimensions: Some((2, 2)) };
    assert_eq!(
        message(decoded_to_i420(Ok(image), &mut buf)),
        "decoded YCbCr payload is 11 bytes, expected 12"
    );

    let pixels = vec![0, 10, 200, 255, 20, 210, 128, 30, 220, 64, 41, 231];
    let image = JpegImage { pixels, dimensions: Some((2, 2)) };
    decoded_to_i420(Ok(image), &mut buf).expect("convert");
    assert_eq!(
        buf.y(),
        &[
            full_to_limited_y(0),
            full_to_limited_y(255),
            full_to_limited_y(128),
            full_to_limited_y(64),
        ]
    );
    assert_eq!(buf.u(), &[full_to_limited_c(25)]);
    assert_eq!(buf.v(), &[full_to_limited_c(215)]);
}

#[test]
fn color_formulas_have_their_exact_values() {
    assert_eq!(full_to_limited_y(0), 16);
    assert_eq!(full_to_limited_y(255), 235);
    assert_eq!(full_to_limited_y(128), 126);
    assert_eq!(full_to_limited_c(0), 16);
    assert_eq!(full_to_limited_c(255), 240);
    assert_eq!(full_to_limited_c(128), 128);
    assert_eq!(rgb_to_y(255, 255, 255), 235);
    assert_eq!(rgb_to_y(0, 0, 0), 16);
    assert_eq!(rgb_to_y(255, 0, 0), 82);
    assert_eq!(rgb_to_u(255, 0, 0), 90);
    assert_eq!(rgb_to_v(255, 0, 0), 240);
    assert_eq!(rgb_to_u(0, 0, 255), 240);
}

#[test]
fn gray_pixels_have_neutral_chroma() {
    for gray in 0..=255u8 {
        let f = frame(PixelFormat::Rgb24, 2, 2, vec![gray; 12]);
        let mut buf = I420Buffer::new();
        to_i420(&f, &mut buf).expect("convert");
        assert_eq!(buf.u(), &[128]);
        assert_eq!(buf.v(), &[128]);
    }
}

#[test]
fn rgb_chroma_is_the_mean_of_a_block() {
    let data = vec![255, 0, 0, 0, 255, 0, 0, 0, 255, 7, 7, 7];
    let f = frame(PixelFormat::Rgb24, 2, 2, data);
    let mut buf = I420Buffer::new();
    to_i420(&f, &mut buf).expect("convert");
    // (255 + 0 + 0 + 7) / 4 = 65 for every component.
    assert_eq!(buf.u(), &[rgb_to_u(65, 65, 65)]);
    assert_eq!(buf.v(), &[rgb_to_v(65, 65, 65)]);
    assert_eq!(buf.y()[0], rgb_to_y(255, 0, 0));
    assert_eq!(buf.y()[3], rgb_to_y(7, 7, 7));
}

#[test]
fn rejected_frames_leave_the_buffer_alone() {
    let mut buf = I420Buffer::new();
    let good = frame(PixelFormat::Luma8, 2, 2, vec![3; 4]);
    to_i420(&good, &mut buf).expect("convert");
    let zero = frame(PixelFormat::Nv12, 0, 2, vec![]);
    assert_eq!(message(to_i420(&zero, &mut buf)), "zero dimension: 0x2");
    let odd = frame(PixelFormat::Yuyv, 2, 3, vec![0; 12]);
    assert_eq!(
        message(to_i420(&odd, &mut buf)),
        "odd dimensions unsupported for 4:2:0 output: 2x3"
    );
    let long = frame(PixelFormat::Nv12, 2, 2, vec![0; 7]);
    assert!(to_i420(&long, &mut buf).is_err());
    assert_eq!(buf.dimensions(), (2, 2));
    assert_eq!(buf.y(), &[3; 4]);
}

#[test]
fn huge_dimensions_are_a_length_error() {
    let mut buf = I420Buffer::new();
    let f = frame(PixelFormat::Rgb24, 4_294_967_294, 4_294_967_294, vec![0; 12]);
    assert_eq!(
        message(to_i420(&f, &mut buf)),
        "RGB24 payload is 12 bytes, expected 55340232169589047308"
    );
}

#[test]
fn payload_lengths_are_compared() {
    assert!(check_len(&[1, 2, 3], 3, "RGB24").is_ok());
    assert_eq!(
        message(check_len(&[1, 2], 3, "RGB24")),
        "RGB24 payload is 2 bytes, expected 3"
    );
}

#[test]
fn unsupported_component_layouts_are_rejected() {
    // The first component is the narrowest, and has a scan of its own.
    let narrow = layered_jpeg(0xc0, (16, 16), &[0x11, 0x22, 0x22], 1, &[], 1);
    assert!(!is_decodable(&narrow));
    let mut buf = I420Buffer::new();
    assert_eq!(
        message(to_i420(&frame(PixelFormat::Mjpeg, 16, 16, narrow.clone()), &mut buf)),
        "MJPEG decode failed: unsupported layout or quantization"
    );
    assert_eq!(buf.dimensions(), (0, 0));
    // A scratch row that is too short for a component.
    assert!(!is_decodable(&layered_jpeg(0xc2, (8, 16), &[0x11, 0x22, 0x11], 3, &[], 9)));
    assert!(!is_decodable(&layered_jpeg(0xc0, (8, 16), &[0x11, 0x22, 0x11], 1, &[], 9)));
    // Progressive frames with too few components for their color transform, or
    // one more than it has.
    let adobe = |transform: u8| {
        vec![0xff, 0xee, 0, 14, b'A', b'd', b'o', b'b', b'e', 0, 100, 0, 0, 0, 0, transform]
    };
    assert!(!is_decodable(&layered_jpeg(0xc2, (16, 16), &[0x11], 1, &adobe(2), 9)));
    assert!(!is_decodable(&layered_jpeg(0xc2, (16, 16), &[0x11, 0x11], 2, &adobe(2), 9)));
    let four = [0x22, 0x11, 0x11, 0x22];
    assert!(!is_decodable(&layered_jpeg(0xc2, (16, 16), &four, 4, &adobe(1), 9)));
    // What the decoder can turn away by itself is left to it.
    for (size, factors, extra) in [
        ((16, 16), &[0x11, 0x21, 0x11][..], vec![]),
        ((8, 8), &[0x11, 0x21, 0x11], vec![]),
        ((16, 16), &[0x11, 0x11], vec![]),
        ((16, 16), &[0x11], vec![]),
        ((16, 16), &[0x11], adobe(0)),
        ((16, 16), &four, vec![]),
        ((16, 16), &[0x31, 0x11, 0x11], vec![]),
    ] {
        let data = layered_jpeg(0xc2, size, factors, factors.len(), &extra, 9);
        assert!(is_decodable(&data), "{factors:x?}");
        let mut other = I420Buffer::new();
        if let Err(MediaError::Convert(m)) =
            to_i420(&frame(PixelFormat::Mjpeg, 16, 16, data), &mut other)
        {
            assert_ne!(m, "MJPEG decode failed: unsupported layout or quantization");
        }
    }
    // Filled markers and an application segment with one byte too many before
    // the frame header do not hide it.
    let mut hidden = narrow[..2].to_vec();
    hidden.extend([0xff, 0xff, 0xe0, 0, 6, 1, 2, 3, 4, 5, 7, 7, 0xff, 0xfe, 0, 3, 0xff]);
    hidden.extend(&narrow[2..]);
    assert!(!is_decodable(&hidden));
    // A frame header inside a comment is none.
    let mut comment = vec![0xff, 0xd8, 0xff, 0xfe, 0, 21];
    comment.extend([0xff, 0xc0, 0, 17, 8, 0, 16, 0, 16, 3, 1, 0x11, 0, 2, 0x22, 0, 3, 0x22, 0]);
    comment.extend(&flat_jpeg(16, 16, 0)[2..]);
    assert!(is_decodable(&comment));
    to_i420(&frame(PixelFormat::Mjpeg, 16, 16, comment), &mut buf).expect("convert");
    assert_eq!(buf.dimensions(), (16, 16));
}

/// A 16x8 stream without differences whose quantizers are `entry` and whose
/// Huffman table knows differences of `category`, with `rest` behind its scan.
fn coarse_jpeg(entry: u16, category: u8, rest: &[u8]) -> Vec<u8> {
    let mut out = vec![0xff, 0xd8];
    out.extend([0xff, 0xdb, 0, 131, 0x10]);
    for _ in 0..64 {
        out.extend(entry.to_be_bytes());
    }
    out.extend([0xff, 0xc0, 0, 17, 8, 0, 8, 0, 16]);
    out.extend([3, 1, 0x11, 0, 2, 0x11, 0, 3, 0x11, 0]);
    out.extend([0xff, 0xc4, 0, 21, 0x00, 1, 1]);
    out.extend([0; 14]);
    out.extend([0, category]);
    out.extend([0xff, 0xc4, 0, 20, 0x10, 1]);
    out.extend([0; 15]);
    out.push(0);
    out.extend([0xff, 0xda, 0, 12, 3, 1, 0x00, 2, 0x00, 3, 0x00, 0, 63, 0]);
    out.extend([0; 2]);
    out.extend(rest);
    out
}

#[test]
fn coarse_quantizers_are_rejected_where_they_might_overflow() {
    let end = [0xff, 0xd9];
    // Two blocks of at most 32767 a step.
    let widest = coarse_jpeg(32_768, 15, &end);
    assert!(is_decodable(&widest));
    let mut buf = I420Buffer::new();
    to_i420(&frame(PixelFormat::Mjpeg, 0, 0, widest), &mut buf).expect("convert");
    assert_eq!(buf.dimensions(), (16, 8));
    let beyond = coarse_jpeg(32_769, 15, &end);
    assert!(!is_decodable(&beyond));
    assert_eq!(
        message(to_i420(&frame(PixelFormat::Mjpeg, 0, 0, beyond), &mut buf)),
        "MJPEG decode failed: unsupported layout or quantization"
    );
    assert!(!is_decodable(&coarse_jpeg(65_535, 15, &end)));
    assert!(is_decodable(&coarse_jpeg(65_535, 14, &end)));
    assert!(is_decodable(&coarse_jpeg(65_535, 3, &end)));
    // Restarts and what follows the end of the image do not count; another scan
    // does, and so do other tables before it.
    let scan = [0xff, 0xda, 0, 12, 3, 1, 0x00, 2, 0x00, 3, 0x00, 0, 63, 0, 0, 0, 0xff, 0xd9];
    let mut rest = vec![0xff, 0xd0, 0, 0xff, 0, 0xff, 0xff, 0xd1, 0, 0xff, 0xd9];
    rest.extend(scan);
    assert!(is_decodable(&coarse_jpeg(32_768, 15, &rest)));
    assert!(!is_decodable(&coarse_jpeg(32_768, 15, &scan)));
    assert!(is_decodable(&coarse_jpeg(16_384, 15, &scan)));
    let mut tables = vec![0xff, 0xc4, 0, 20, 0x00, 1];
    tables.extend([0; 15]);
    tables.push(5);
    tables.extend(end);
    assert!(is_decodable(&coarse_jpeg(32_768, 11, &tables)));
    assert!(!is_decodable(&coarse_jpeg(40_000, 11, &tables)));
    // Ordinary quantizers are far from that in ordinary pictures.
    for (size, factors) in [((1280, 720), [0x22, 0x11, 0x11]), ((1920, 1080), [0x21, 0x11, 0x11])] {
        assert!(is_decodable(&layered_jpeg(0xc0, size, &factors, 3, &[], 9)));
    }
}

#[test]
fn quantizers_are_limited_by_the_size_of_the_picture() {
    for ((width, height), limit) in [
        ((640, 480), 218),
        ((1280, 720), 72),
        ((1920, 1080), 32),
        ((2560, 1440), 18),
        ((2592, 1944), 13),
        ((3840, 2160), 8),
    ] {
        let size = (width, height);
        let mut stream = layered_jpeg(0xc0, size, &[0x22, 0x11, 0x11], 3, &[], 9);
        // The first entry of the quantization table.
        stream[7] = limit;
        assert!(is_decodable(&stream), "{width}x{height}");
        stream[7] = limit + 1;
        assert!(!is_decodable(&stream), "{width}x{height}");
        // The other entries do not count, nor does any in a progressive frame.
        stream[7] = limit;
        stream[8] = 255;
        assert!(is_decodable(&stream), "{width}x{height}");
        let mut progressive = layered_jpeg(0xc2, size, &[0x22, 0x11, 0x11], 3, &[], 9);
        progressive[7] = 255;
        assert!(is_decodable(&progressive), "{width}x{height}");
    }
}

#[test]
fn ordinary_component_layouts_decode() {
    let mut gray = I420Buffer::new();
    to_i420(&frame(PixelFormat::Mjpeg, 0, 0, flat_jpeg(32, 16, 0)), &mut gray).expect("convert");
    // Two bits a block, or one in a progressive frame's first scan.
    for (marker, factors, blocks) in [
        (0xc0, [0x11, 0x11, 0x11], 6),
        (0xc0, [0x21, 0x11, 0x11], 4),
        (0xc0, [0x22, 0x11, 0x11], 3),
        (0xc1, [0x41, 0x11, 0x11], 3),
        (0xc2, [0x11, 0x11, 0x11], 3),
        (0xc2, [0x22, 0x11, 0x11], 2),
    ] {
        let data = layered_jpeg(marker, (32, 16), &factors, 3, &[], blocks);
        let mut buf = I420Buffer::new();
        to_i420(&frame(PixelFormat::Mjpeg, 0, 0, data), &mut buf).expect("convert");
        assert_eq!(buf.dimensions(), (32, 16));
        assert_eq!(buf.y(), gray.y(), "{marker:x} {factors:x?}");
        assert_eq!(buf.u(), gray.u());
        assert_eq!(buf.v(), gray.v());
    }
    // One scan per component.
    for factors in [[0x11, 0x11, 0x11], [0x21, 0x11, 0x11], [0x22, 0x11, 0x11]] {
        let data = layered_jpeg(0xc0, (32, 16), &factors, 1, &[], 64);
        let mut buf = I420Buffer::new();
        to_i420(&frame(PixelFormat::Mjpeg, 0, 0, data), &mut buf).expect("convert");
        assert_eq!(buf.dimensions(), (32, 16));
    }
}

#[test]
fn every_component_layout_is_answered() {
    let adobe = |transform: u8| {
        vec![0xff, 0xee, 0, 14, b'A', b'd', b'o', b'b', b'e', 0, 100, 0, 0, 0, 0, transform]
    };
    let pairs = [0x11, 0x12, 0x21, 0x22, 0x41, 0x44];
    let mut answered = 0;
    for marker in [0xc0, 0xc2] {
        for extra in [vec![], adobe(1), adobe(2)] {
            for a in pairs {
                for b in pairs {
                    for c in pairs {
                        for count in 1..=4 {
                            for first in 1..=count {
                                let factors = &[a, b, c, b][..count];
                                let data =
                                    layered_jpeg(marker, (50, 34), factors, first, &extra, 40);
                                let f = frame(PixelFormat::Mjpeg, 50, 34, data);
                                let mut buf = I420Buffer::new();
                                if to_i420(&f, &mut buf).is_ok() {
                                    assert_eq!(buf.dimensions(), (50, 34));
                                }
                                answered += 1;
                            }
                        }
                    }
                }
            }
        }
    }
    assert_eq!(answered, 12960);
}
