use base64::engine::general_purpose::STANDARD;
use base64::Engine;
use cloudreve_cli::api::models::EncryptMetadata;
use cloudreve_cli::uploader::chunk::ChunkReader;
use cloudreve_cli::uploader::chunk::ReadStep;
use cloudreve_cli::uploader::encrypt::EncryptionConfig;
use cloudreve_cli::uploader::error::UploadError;

fn hex(text: &str) -> Vec<u8> {
    (0..text.len() / 2)
        .map(|i| u8::from_str_radix(&text[2 * i..2 * i + 2], 16).unwrap())
        .collect()
}

// Well-known vectors of AES-256 in counter mode.
const KEY: &str = "603deb1015ca71be2b73aef0857d77811f352c073b6108d72d9810a30914dff4";
const COUNTER: &str = "f0f1f2f3f4f5f6f7f8f9fafbfcfdfeff";
const PLAIN: &str = "6bc1bee22e409f96e93d7e117393172aae2d8a571e03ac9c9eb76fac45af8e51\
                     30c81c46a35ce411e5fbc1191a0a52eff69f2445df4f9b17ad2b417be66c3710";
const CIPHER: &str = "601ec313775789a5b7a7f504bbf3d228f443e3ca4d62b59aca84e990cacaf5c5\
                      2b0930daa23de94ce87017ba2d84988ddfc9c58db67aada613c2dd08457941a6";

fn metadata(key: &[u8], iv: &[u8]) -> EncryptMetadata {
    EncryptMetadata {
        key_plain_text: STANDARD.encode(key),
        iv: STANDARD.encode(iv),
    }
}

fn config() -> EncryptionConfig {
    match EncryptionConfig::from_metadata(&metadata(&hex(KEY), &hex(COUNTER))) {
        Ok(config) => config,
        Err(e) => panic!("{}", e.message()),
    }
}

fn refusal(metadata: &EncryptMetadata) -> String {
    match EncryptionConfig::from_metadata(metadata) {
        Ok(_) => panic!("accepted"),
        Err(UploadError::EncryptionError(m)) => m,
        Err(e) => panic!("{}", e.message()),
    }
}

#[test]
fn file_is_encrypted_in_counter_mode() {
    let mut data = hex(PLAIN);
    config().encrypt_at_offset(&mut data, 0);
    assert_eq!(data, hex(CIPHER));
}

#[test]
fn part_is_encrypted_for_its_place() {
    for (start, end) in [(0, 16), (16, 64), (5, 9), (7, 41), (15, 17), (63, 64), (20, 20)] {
        let mut data = hex(PLAIN)[start..end].to_vec();
        config().encrypt_at_offset(&mut data, start as u64);
        assert_eq!(data, hex(CIPHER)[start..end].to_vec());
    }
}

#[test]
fn encrypting_twice_decrypts() {
    let mut data: Vec<u8> = (0..100).collect();
    config().encrypt_at_offset(&mut data, 1_000_003);
    assert_ne!(data, (0..100).collect::<Vec<u8>>());
    config().encrypt_at_offset(&mut data, 1_000_003);
    assert_eq!(data, (0..100).collect::<Vec<u8>>());
}

#[test]
fn counter_carries() {
    let mut counter = [0u8; 16];
    EncryptionConfig::increment_counter(&mut counter, 1);
    assert_eq!(counter[15], 1);
    EncryptionConfig::increment_counter(&mut counter, 0xffff);
    assert_eq!(counter[12..], [0, 1, 0, 0]);
    let mut top = [0xffu8; 16];
    EncryptionConfig::increment_counter(&mut top, 1);
    assert_eq!(top, [0u8; 16]);
    EncryptionConfig::increment_counter(&mut top, 0);
    assert_eq!(top, [0u8; 16]);
    EncryptionConfig::increment_counter(&mut top, u64::MAX);
    assert_eq!(top[..8], [0u8; 8]);
    assert_eq!(top[8..], [0xffu8; 8]);
}

#[test]
fn counter_steps_can_be_taken_together() {
    let mut apart: [u8; 16] = hex(COUNTER).try_into().unwrap();
    EncryptionConfig::increment_counter(&mut apart, 300);
    EncryptionConfig::increment_counter(&mut apart, 70_000);
    let mut together: [u8; 16] = hex(COUNTER).try_into().unwrap();
    EncryptionConfig::increment_counter(&mut together, 70_300);
    assert_eq!(apart, together);
}

#[test]
fn key_and_counter_are_checked() {
    let good = metadata(&hex(KEY), &hex(COUNTER));
    let mut bad_key = good.clone();
    bad_key.key_plain_text = "!".to_string();
    assert!(refusal(&bad_key).starts_with("Invalid key: "));
    let mut bad_iv = good.clone();
    bad_iv.iv = "!".to_string();
    assert!(refusal(&bad_iv).starts_with("Invalid IV: "));
    assert_eq!(
        refusal(&metadata(&[0; 31], &[0; 16])),
        "Invalid key length: expected 32, got 31"
    );
    assert_eq!(
        refusal(&metadata(&[0; 32], &[0; 17])),
        "Invalid IV length: expected 16, got 17"
    );
    assert_eq!(
        refusal(&metadata(&[], &[])),
        "Invalid key length: expected 32, got 0"
    );
}

#[test]
fn undecodable_counter_comes_before_a_short_key() {
    let mut both = metadata(&[1], &[]);
    both.iv = "*".to_string();
    assert!(refusal(&both).starts_with("Invalid IV: "));
}

#[test]
fn decoded_parts_are_checked_alike() {
    let e = EncryptionConfig::from_decoded(Err("torn".to_string()), Ok(vec![]));
    assert_eq!(e.err().unwrap().message(), "Encryption error: Invalid key: torn");
    let e = EncryptionConfig::from_decoded(Ok(vec![]), Err("torn".to_string()));
    assert_eq!(e.err().unwrap().message(), "Encryption error: Invalid IV: torn");
    assert!(EncryptionConfig::from_decoded(Ok(vec![0; 32]), Ok(vec![0; 16])).is_ok());
}

#[test]
fn chunk_read_in_pieces_is_encrypted_as_a_whole() {
    let plain = hex(PLAIN);
    let mut reader = ChunkReader::new(3, 50, Some(config()));
    assert_eq!(reader.size(), 50);
    let mut sent: Vec<u8> = Vec::new();
    let mut at = 3;
    loop {
        match reader.poll_read(7) {
            ReadStep::Done => break,
            ReadStep::Read(n) => {
                let mut piece = plain[at..at + n].to_vec();
                reader.finish_read(&mut piece);
                at += n;
                sent.extend_from_slice(&piece);
            }
        }
    }
    assert_eq!(at, 53);
    assert_eq!(sent, hex(CIPHER)[3..53].to_vec());
    assert_eq!(reader.size(), 50);
}

#[test]
fn chunk_without_a_cipher_is_sent_as_it_is() {
    let mut reader = ChunkReader::new(u64::MAX, 4, None);
    assert_eq!(reader.poll_read(100), ReadStep::Read(4));
    assert_eq!(reader.poll_read(0), ReadStep::Read(0));
    let mut piece = [1u8, 2, 3, 4];
    reader.finish_read(&mut piece);
    assert_eq!(piece, [1, 2, 3, 4]);
    assert_eq!(reader.poll_read(100), ReadStep::Done);
}

#[test]
fn file_that_ends_inside_a_chunk_is_sent_as_far_as_it_goes() {
    let plain = hex(PLAIN);
    let mut reader = ChunkReader::new(40, 100, Some(config()));
    let mut sent: Vec<u8> = Vec::new();
    let mut at = 40;
    while at < plain.len() {
        match reader.poll_read(9) {
            ReadStep::Done => panic!("the chunk is longer"),
            ReadStep::Read(n) => {
                let end = plain.len().min(at + n);
                let mut piece = plain[at..end].to_vec();
                reader.finish_read(&mut piece);
                at = end;
                sent.extend_from_slice(&piece);
            }
        }
    }
    assert_eq!(sent, hex(CIPHER)[40..].to_vec());
    assert_eq!(reader.size(), 100);
}
