use media_forge::image::animation::{gif_is_animated, is_animated, png_is_animated};
use media_forge::kinds::{handling, needs_animation_check, Handling};

fn chunk(kind: &[u8; 4], data: &[u8]) -> Vec<u8> {
    let mut c = (data.len() as u32).to_be_bytes().to_vec();
    c.extend_from_slice(kind);
    c.extend_from_slice(data);
    c.extend_from_slice(&[0, 0, 0, 0]);
    c
}

fn png(chunks: &[Vec<u8>]) -> Vec<u8> {
    let mut b = vec![137, 80, 78, 71, 13, 10, 26, 10];
    for c in chunks {
        b.extend_from_slice(c);
    }
    b
}

fn gif(frames: usize) -> Vec<u8> {
    let mut b = b"GIF89a".to_vec();
    b.extend_from_slice(&[1, 0, 1, 0, 0x80, 0, 0]);
    b.extend_from_slice(&[0, 0, 0, 255, 255, 255]);
    for _ in 0..frames {
        b.extend_from_slice(&[0x21, 0xF9, 4, 0, 10, 0, 0, 0]);
        b.extend_from_slice(&[0x2C, 0, 0, 0, 0, 1, 0, 1, 0, 0]);
        b.extend_from_slice(&[2, 2, 0x4C, 0x01, 0]);
    }
    b.push(0x3B);
    b
}

#[test]
fn apng_needs_animation_control_before_image_data() {
    let ihdr = chunk(b"IHDR", &[0; 13]);
    let actl = chunk(b"acTL", &[0, 0, 0, 2, 0, 0, 0, 0]);
    let idat = chunk(b"IDAT", &[1, 2, 3]);
    let iend = chunk(b"IEND", &[]);
    assert!(png_is_animated(&png(&[ihdr.clone(), actl.clone(), idat.clone(), iend.clone()])));
    assert!(!png_is_animated(&png(&[ihdr.clone(), idat.clone(), actl.clone(), iend.clone()])));
    assert!(!png_is_animated(&png(&[ihdr.clone(), idat.clone(), iend.clone()])));
    assert!(!png_is_animated(b"not a png at all"));
    let mut truncated = png(&[ihdr.clone()]);
    truncated.truncate(20);
    assert!(!png_is_animated(&truncated));
}

#[test]
fn gif_is_animated_with_two_images() {
    assert!(!gif_is_animated(&gif(1)));
    assert!(gif_is_animated(&gif(2)));
    assert!(gif_is_animated(&gif(5)));
    assert!(!gif_is_animated(b"GIF89a"));
    let mut cut = gif(2);
    cut.truncate(cut.len() - 4);
    assert!(gif_is_animated(&cut));
}

#[test]
fn animation_is_checked_by_extension() {
    assert!(is_animated("gif", &gif(3)));
    assert!(!is_animated("png", &gif(3)));
    assert!(!is_animated("webp", &gif(3)));
    assert!(needs_animation_check("png"));
    assert!(!needs_animation_check("jpg"));
}

#[test]
fn handling_follows_the_format_rules() {
    assert!(matches!(handling("jpg", false), Handling::Convert));
    assert!(matches!(handling("png", false), Handling::Convert));
    assert!(matches!(handling("png", true), Handling::Copy));
    assert!(matches!(handling("avif", false), Handling::Copy));
    assert!(matches!(handling("webp", false), Handling::Copy));
    assert!(matches!(handling("apng", false), Handling::Copy));
    assert!(matches!(handling("gif", true), Handling::Copy));
    assert!(matches!(handling("gif", false), Handling::Skip));
    assert!(matches!(handling("mp4", false), Handling::Skip));
}
