use remote_viewer_host::capture::{bgra_to_rgb, encode_frame, EncodeError};

#[test]
fn bgra_pixels_become_rgb() {
    assert_eq!(bgra_to_rgb(&[1, 2, 3, 4, 5, 6, 7, 8]), vec![3, 2, 1, 7, 6, 5]);
    assert_eq!(bgra_to_rgb(&[1, 2, 3, 4, 9]), vec![3, 2, 1]);
    assert!(bgra_to_rgb(&[]).is_empty());
}

#[test]
fn frames_encode_as_jpeg() {
    let bgra: Vec<u8> = (0..(4 * 3 * 4)).map(|i| i as u8).collect();
    let jpeg = encode_frame(&bgra, 4, 3, 70).unwrap();
    assert_eq!(&jpeg[..2], &[0xFF, 0xD8]);
    assert_eq!(&jpeg[jpeg.len() - 2..], &[0xFF, 0xD9]);
    assert_eq!(encode_frame(&bgra, 4, 3, 70).unwrap(), jpeg);
    assert_ne!(encode_frame(&bgra, 4, 3, 10).unwrap(), jpeg);
    assert_eq!(encode_frame(&bgra, 4, 4, 70), Err(EncodeError::BufferSize));
    assert_eq!(encode_frame(&bgra[..47], 4, 3, 70), Err(EncodeError::BufferSize));
    assert_eq!(encode_frame(&[], 0, 3, 70), Err(EncodeError::InvalidSize));
    let wide = vec![0u8; 65536 * 4];
    assert_eq!(encode_frame(&wide, 65536, 1, 70), Err(EncodeError::InvalidSize));
}
