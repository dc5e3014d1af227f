use mnist_mlp::loader::{parse_images, parse_labels, read_u32_be, LoadError, IMAGE_PIXELS};

fn images_file(width: u8, height: u8, pixels: usize) -> Vec<u8> {
    let mut b = vec![0, 0, 8, 3, 0, 0, 0, 1, 0, 0, 0, width, 0, 0, 0, height];
    b.extend((0..pixels).map(|i| (i % 256) as u8));
    b
}

#[test]
fn reads_big_endian_words() {
    assert_eq!(read_u32_be(&vec![9, 0x12, 0x34, 0x56, 0x78], 1), 0x1234_5678);
}

#[test]
fn labels_are_bytes_after_header() {
    let b = vec![0, 0, 8, 1, 0, 0, 0, 3, 7, 0, 9];
    assert_eq!(parse_labels(&b), Ok(vec![7, 0, 9]));
    assert_eq!(parse_labels(&vec![0, 0, 8, 1, 0, 0, 0, 0]), Ok(vec![]));
}

#[test]
fn labels_errors() {
    assert_eq!(parse_labels(&vec![0, 0, 8]), Err(LoadError::Truncated));
    assert_eq!(
        parse_labels(&vec![0, 0, 8, 3, 0, 0, 0, 0]),
        Err(LoadError::BadMagic { found: 0x803, expected: 0x801 })
    );
    assert_eq!(parse_labels(&vec![0, 0, 8, 1, 0]), Err(LoadError::Truncated));
}

#[test]
fn images_split_into_whole_images() {
    let b = images_file(28, 28, 2 * IMAGE_PIXELS);
    let imgs = parse_images(&b).unwrap();
    assert_eq!(imgs.len(), 2);
    assert_eq!(imgs[0].pixels[0], 0);
    assert_eq!(imgs[0].pixels[783], (783 % 256) as u8);
    assert_eq!(imgs[1].pixels[0], (784 % 256) as u8);
}

#[test]
fn images_errors() {
    assert_eq!(parse_images(&vec![0, 0]), Err(LoadError::Truncated));
    assert_eq!(
        parse_images(&vec![0, 0, 8, 1, 0, 0, 0, 0]),
        Err(LoadError::BadMagic { found: 0x801, expected: 0x803 })
    );
    assert_eq!(parse_images(&vec![0, 0, 8, 3, 0, 0, 0, 0]), Err(LoadError::Truncated));
    assert_eq!(
        parse_images(&images_file(28, 27, 0)),
        Err(LoadError::BadSize { width: 28, height: 27 })
    );
    assert_eq!(
        parse_images(&images_file(28, 28, IMAGE_PIXELS + 5)),
        Err(LoadError::PartialImage { extra: 5 })
    );
}
