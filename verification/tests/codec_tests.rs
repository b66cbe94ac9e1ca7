use stego::carrier::Carrier;
use stego::decoder::StegoDecoder;
use stego::encoder::StegoEncoder;
use stego::errors::StegoError;
use stego::index::MessageIndexDB;

fn grid(path: &str, width: u32, height: u32) -> Carrier {
    Carrier::new(
        String::from(path),
        width,
        height,
        vec![0x80u8; (3 * width * height) as usize],
    )
    .unwrap()
}

#[test]
fn config_rejects_bad_bit_depth() {
    assert_eq!(
        StegoEncoder::new(0, None, String::from("idx")).unwrap_err(),
        StegoError::ConfigError
    );
    assert_eq!(
        StegoEncoder::new(4, None, String::from("idx")).unwrap_err(),
        StegoError::ConfigError
    );
    assert_eq!(
        StegoDecoder::new(0, None, String::from("idx")).unwrap_err(),
        StegoError::ConfigError
    );
    assert!(StegoDecoder::new(3, None, String::from("idx")).is_ok());
}

#[test]
fn hello_encodes_and_decodes() {
    let enc = StegoEncoder::new(1, None, String::from("idx")).unwrap();
    let dec = StegoDecoder::new(1, None, String::from("idx")).unwrap();
    let mut carriers = vec![grid("carrier.png", 12, 12)];
    let mut index = MessageIndexDB::new();
    let messages = vec![b"HELLO".to_vec()];
    let placed = enc
        .encode_messages(&messages, &mut carriers, &mut index)
        .unwrap();
    assert_eq!(placed.len(), 1);
    let (path, message_id) = &placed[0];
    assert_eq!(path, "carrier.png");
    let recovered = dec.decode_message(*message_id, &index, &carriers).unwrap();
    assert_eq!(recovered, b"HELLO");
}

#[test]
fn passphrase_protects_the_message() {
    let enc = StegoEncoder::new(1, Some(String::from("secret")), String::from("idx")).unwrap();
    let mut carriers = vec![grid("carrier.png", 16, 16)];
    let mut index = MessageIndexDB::new();
    let placed = enc
        .encode_messages(&vec![b"HELLO".to_vec()], &mut carriers, &mut index)
        .unwrap();
    let (_, message_id) = placed[0];

    let wrong = StegoDecoder::new(1, Some(String::from("wrong")), String::from("idx")).unwrap();
    assert_eq!(
        wrong.decode_message(message_id, &index, &carriers).unwrap_err(),
        StegoError::CryptoError
    );

    let right = StegoDecoder::new(1, Some(String::from("secret")), String::from("idx")).unwrap();
    assert_eq!(
        right.decode_message(message_id, &index, &carriers).unwrap(),
        b"HELLO"
    );
}

#[test]
fn insufficient_capacity_changes_nothing() {
    let enc = StegoEncoder::new(1, None, String::from("idx")).unwrap();
    // Two tiny carriers: one declared byte each, far below the 41-byte frame.
    let mut carriers = vec![grid("a.png", 2, 2), grid("b.png", 2, 2)];
    let before: Vec<Vec<u8>> = carriers.iter().map(|c| c.pixels.clone()).collect();
    let mut index = MessageIndexDB::new();
    let e = enc
        .encode_messages(&vec![b"HELLO".to_vec()], &mut carriers, &mut index)
        .unwrap_err();
    assert_eq!(e, StegoError::CapacityError { required: 36 + 5 });
    assert!(index.get_all_messages().is_empty());
    for (c, b) in carriers.iter().zip(before.iter()) {
        assert_eq!(&c.pixels, b);
    }
}

#[test]
fn empty_carrier_set_is_reported() {
    let enc = StegoEncoder::new(1, None, String::from("idx")).unwrap();
    let mut carriers: Vec<Carrier> = Vec::new();
    let mut index = MessageIndexDB::new();
    let e = enc
        .encode_messages(&vec![b"HELLO".to_vec()], &mut carriers, &mut index)
        .unwrap_err();
    assert_eq!(e, StegoError::IOError);
}

#[test]
fn unknown_identifier_is_not_found() {
    let dec = StegoDecoder::new(1, None, String::from("idx")).unwrap();
    let carriers = vec![grid("carrier.png", 12, 12)];
    let index = MessageIndexDB::new();
    assert_eq!(
        dec.decode_message(42, &index, &carriers).unwrap_err(),
        StegoError::NotFoundError { message_id: 42 }
    );
}

#[test]
fn tampered_payload_is_rejected() {
    let enc = StegoEncoder::new(1, None, String::from("idx")).unwrap();
    let dec = StegoDecoder::new(1, None, String::from("idx")).unwrap();
    let mut carriers = vec![grid("carrier.png", 12, 12)];
    let mut index = MessageIndexDB::new();
    let placed = enc
        .encode_messages(&vec![b"HELLO".to_vec()], &mut carriers, &mut index)
        .unwrap();
    let (_, message_id) = placed[0].clone();
    // Flip one hidden payload bit: the payload starts after the 36-byte
    // header, at channel 288 of the hidden stream.
    carriers[0].pixels[290] ^= 1;
    assert_eq!(
        dec.decode_message(message_id, &index, &carriers).unwrap_err(),
        StegoError::IntegrityError
    );
}

#[test]
fn one_corrupt_record_spoils_only_itself() {
    let enc = StegoEncoder::new(1, None, String::from("idx")).unwrap();
    let dec = StegoDecoder::new(1, None, String::from("idx")).unwrap();
    let mut carriers = vec![
        grid("a.png", 12, 12),
        grid("b.png", 12, 12),
        grid("c.png", 12, 12),
    ];
    let mut index = MessageIndexDB::new();
    let messages = vec![b"one".to_vec(), b"two".to_vec(), b"three".to_vec()];
    let placed = enc
        .encode_messages(&messages, &mut carriers, &mut index)
        .unwrap();
    assert_eq!(placed.len(), 3);
    // Overwrite the carrier holding the second message.
    let victim = &placed[1].0;
    let v = carriers.iter().position(|c| &c.path == victim).unwrap();
    for chan in 0..100 {
        carriers[v].pixels[chan] ^= 1;
    }
    let recovered = dec.decode_all_messages(&index, &carriers);
    assert_eq!(recovered, vec![b"one".to_vec(), b"three".to_vec()]);
}

#[test]
fn batch_places_best_fit_first() {
    // Unequal carriers: every message goes to the roomiest remainder.
    let enc = StegoEncoder::new(1, None, String::from("idx")).unwrap();
    let dec = StegoDecoder::new(1, None, String::from("idx")).unwrap();
    let mut carriers = vec![grid("small.png", 12, 12), grid("big.png", 40, 40)];
    let mut index = MessageIndexDB::new();
    let messages = vec![b"first".to_vec(), b"second".to_vec()];
    let placed = enc
        .encode_messages(&messages, &mut carriers, &mut index)
        .unwrap();
    assert_eq!(placed[0].0, "big.png");
    assert_eq!(placed[1].0, "big.png");
    // Offsets are the running sum of framed sizes within one carrier.
    let rows = index.get_all_messages();
    assert_eq!(rows[0].2, 0);
    assert_eq!(rows[1].2, 36 + 5);
    let all = dec.decode_all_messages(&index, &carriers);
    assert_eq!(all, vec![b"first".to_vec(), b"second".to_vec()]);
}

#[test]
fn round_trips_at_every_bit_depth() {
    for depth in 1u8..=3 {
        let enc = StegoEncoder::new(depth, None, String::from("idx")).unwrap();
        let dec = StegoDecoder::new(depth, None, String::from("idx")).unwrap();
        let mut carriers = vec![grid("carrier.png", 12, 12)];
        let mut index = MessageIndexDB::new();
        let placed = enc
            .encode_messages(&vec![b"HELLO".to_vec()], &mut carriers, &mut index)
            .unwrap();
        let recovered = dec.decode_message(placed[0].1, &index, &carriers).unwrap();
        assert_eq!(recovered, b"HELLO");
    }
}

#[test]
fn declared_capacity_can_outrun_the_bit_plane() {
    // At depth 3 the formula declares three bits per channel while the
    // engine writes one: a 7x7 grid declares 55 bytes, enough for the
    // 41-byte frame, but offers only 147 channels for its 328 bits. The
    // engine reports the shortfall itself.
    let enc = StegoEncoder::new(3, None, String::from("idx")).unwrap();
    let mut carriers = vec![grid("tight.png", 7, 7)];
    let mut index = MessageIndexDB::new();
    let e = enc
        .encode_messages(&vec![b"HELLO".to_vec()], &mut carriers, &mut index)
        .unwrap_err();
    assert_eq!(e, StegoError::CapacityError { required: 41 });
    assert!(index.get_all_messages().is_empty());
}

#[test]
fn register_rejects_duplicate_identifier() {
    let mut index = MessageIndexDB::new();
    index.register(7, "a.png", 0, &[1; 8]).unwrap();
    assert_eq!(
        index.register(7, "b.png", 10, &[2; 8]).unwrap_err(),
        StegoError::IOError
    );
    let loc = index.get_message_location(7).unwrap();
    assert_eq!(loc.0, "a.png");
    assert_eq!(loc.1, 0);
    assert!(index.get_message_location(8).is_none());
    assert_eq!(index.get_all_messages(), vec![(7, String::from("a.png"), 0)]);
}
