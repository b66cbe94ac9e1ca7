use stego::carrier::Carrier;
use stego::decoder::extract_bytes;
use stego::encoder::StegoEncoder;
use stego::errors::StegoError;

fn grid(width: u32, height: u32, fill: u8) -> Carrier {
    Carrier::new(
        String::from("grid.png"),
        width,
        height,
        vec![fill; (3 * width * height) as usize],
    )
    .unwrap()
}

#[test]
fn carrier_rejects_mismatched_buffer() {
    let e = Carrier::new(String::from("bad.png"), 2, 2, vec![0u8; 11]).unwrap_err();
    assert_eq!(e, StegoError::IOError);
}

#[test]
fn embed_then_extract_round_trips() {
    let enc = StegoEncoder::new(1, None, String::from("idx")).unwrap();
    let mut c = grid(4, 2, 0xAB);
    let data = [0xDE, 0xAD];
    enc.write_data_from_offset(&mut c, &data, 0).unwrap();
    let back = extract_bytes(&c, 1, 0, 2).unwrap();
    assert_eq!(back, vec![0xDE, 0xAD]);
}

#[test]
fn embed_at_offset_round_trips() {
    let enc = StegoEncoder::new(2, None, String::from("idx")).unwrap();
    let mut c = grid(8, 4, 0x55);
    let data = [1, 2, 3];
    enc.write_data_from_offset(&mut c, &data, 5).unwrap();
    let back = extract_bytes(&c, 2, 5, 3).unwrap();
    assert_eq!(back, vec![1, 2, 3]);
}

#[test]
fn write_perturbs_only_designated_bit() {
    // Depth 1 writes bit 0: a zero data bit turns 0xFF into 0xFE.
    let enc = StegoEncoder::new(1, None, String::from("idx")).unwrap();
    let mut c = grid(4, 2, 0xFF);
    enc.write_data_from_offset(&mut c, &[0x00], 0).unwrap();
    assert_eq!(&c.pixels[0..8], &[0xFE; 8]);
    assert_eq!(&c.pixels[8..24], &[0xFF; 16]);

    // Depth 3 writes bit 2: a zero data bit turns 0xFF into 0xFB.
    let enc3 = StegoEncoder::new(3, None, String::from("idx")).unwrap();
    let mut c3 = grid(4, 2, 0xFF);
    enc3.write_data_from_offset(&mut c3, &[0x00], 0).unwrap();
    assert_eq!(&c3.pixels[0..8], &[0xFB; 8]);
    assert_eq!(&c3.pixels[8..24], &[0xFF; 16]);
}

#[test]
fn write_past_grid_fails_with_capacity_error() {
    let enc = StegoEncoder::new(1, None, String::from("idx")).unwrap();
    // 1x1 pixels: 3 channels, not even one byte.
    let mut c = grid(1, 1, 0x00);
    let e = enc.write_data_from_offset(&mut c, &[0xFF], 0).unwrap_err();
    assert_eq!(e, StegoError::CapacityError { required: 1 });
    // The channels before the edge were written: 0xFF's first three bits.
    assert_eq!(c.pixels, vec![1, 1, 1]);
}

#[test]
fn extract_past_grid_returns_none() {
    let c = grid(1, 1, 0x00);
    assert!(extract_bytes(&c, 1, 0, 1).is_none());
    assert!(extract_bytes(&c, 1, 7, 1).is_none());
}
