use rbkcrack::attack::Attack;
use rbkcrack::data::{Data, Error};
use rbkcrack::decipher_bytes;
use rbkcrack::keys::Keys;
use rbkcrack::zreduction::Zreduction;
use rbkcrack::zip::zip_entry_data;
use rbkcrack::{recover_keys, Crc32Tab, KeystreamTab, MultTab};

fn tables() -> (Crc32Tab, KeystreamTab, MultTab) {
    let crc = Crc32Tab::new().expect("the CRC table high bytes form a permutation");
    let kst = KeystreamTab::new();
    let mt = MultTab::new();
    (crc, kst, mt)
}

/// Encrypts `header ++ payload` from the initial state, returning the
/// ciphertext and the cipher state at each payload position.
fn encrypt(crc: &Crc32Tab, kst: &KeystreamTab, header: &[u8], payload: &[u8]) -> (Vec<u8>, Vec<(u32, u32, u32)>) {
    let mut keys = Keys::new();
    let mut cipher = Vec::new();
    for &p in header {
        cipher.push(p ^ kst.get_byte(keys.get_z()));
        keys.update(crc, p);
    }
    let mut states = Vec::new();
    for &p in payload {
        states.push((keys.get_x(), keys.get_y(), keys.get_z()));
        cipher.push(p ^ kst.get_byte(keys.get_z()));
        keys.update(crc, p);
    }
    (cipher, states)
}

fn header() -> Vec<u8> {
    (0u32..12).map(|i| ((i * 7) & 0xff) as u8).collect()
}

#[test]
fn crc_forward_and_backward() {
    let (crc, _, _) = tables();
    let c = crc.crc32(0x12345678, 0xAB);
    assert_eq!(c, 0x1fc8b738);
    assert_eq!(crc.crc32inv(c, 0xAB), 0x12345678);
    for b in [0u8, 1, 0x55, 0xFF] {
        let z = 0xDEADBEEFu32;
        assert_eq!(crc.crc32inv(crc.crc32(z, b), b), z);
    }
}

#[test]
fn keystream_byte_of_initial_state() {
    let kst = KeystreamTab::new();
    assert_eq!(kst.get_byte(0x34567890), 0x24);
}

#[test]
fn keystream_fragments_emit_their_byte() {
    let kst = KeystreamTab::new();
    for k in [0u8, 1, 0x24, 0xFF] {
        let frags = kst.get_zi_2_16_array(k);
        assert_eq!(frags.len(), 64);
        for &f in &frags {
            assert_eq!(kst.get_byte(f), k);
        }
    }
}

#[test]
fn keys_forward_update() {
    let (crc, _, _) = tables();
    let mut k = Keys::new();
    assert_eq!(k.get_x(), 0x12345678);
    assert_eq!(k.get_y(), 0x23456789);
    assert_eq!(k.get_z(), 0x34567890);
    k.update(&crc, 0x61);
    assert_eq!(k.get_x(), 0x64799c96);
    assert_eq!(k.get_y(), 0xb303049c);
    assert_eq!(k.get_z(), 0xa253270a);
}

#[test]
fn keys_forward_then_backward_is_identity() {
    let (crc, kst, _) = tables();
    let mut k = Keys::new();
    k.set_keys(0x8879dfed, 0x14335b6b, 0x8dc58b53);
    for p in [0u8, 0x41, 0x7f, 0xfe] {
        let (x, y, z) = (k.get_x(), k.get_y(), k.get_z());
        let c = p ^ kst.get_byte(k.get_z());
        k.update(&crc, p);
        k.update_backward(&crc, c);
        assert_eq!((k.get_x(), k.get_y(), k.get_z()), (x, y, z));
    }
}

#[test]
fn data_keystream_is_the_xor() {
    let plain = vec![1u8, 2, 3, 4, 5, 6, 7, 8, 9, 10, 11, 12, 13];
    let mut cipher = vec![0u8; 12];
    for (i, &p) in plain.iter().enumerate() {
        cipher.push(p ^ (0xA0 + i as u8));
    }
    let d = Data::new(plain.clone(), cipher.clone(), 0).unwrap();
    assert_eq!(d.keystream.len(), 13);
    for i in 0..13 {
        assert_eq!(d.keystream[i], plain[i] ^ cipher[12 + i]);
    }
}

#[test]
fn data_rejects_short_overlap() {
    let plain = vec![0u8; 11];
    let cipher = vec![0u8; 100];
    match Data::new(plain, cipher, 0) {
        Err(e) => assert_eq!(e, Error::InputTooShort),
        Ok(_) => panic!("an 11-byte plaintext must be rejected"),
    }
    let plain = vec![0u8; 40];
    let cipher = vec![0u8; 12 + 11];
    match Data::new(plain, cipher, 0) {
        Err(e) => assert_eq!(e, Error::InputTooShort),
        Ok(_) => panic!("an 11-byte overlap must be rejected"),
    }
}

#[test]
fn data_honours_the_offset() {
    let plain: Vec<u8> = (0u8..20).collect();
    let cipher: Vec<u8> = (100u8..150).collect();
    let d = Data::new(plain.clone(), cipher.clone(), 5).unwrap();
    assert_eq!(d.cipher_start, 17);
    for i in 0..d.keystream.len() {
        assert_eq!(d.keystream[i], plain[i] ^ cipher[17 + i]);
    }
}

#[test]
fn reduction_keeps_the_true_candidate() {
    let (crc, kst, _) = tables();
    let payload = b"thirteen byts";
    assert_eq!(payload.len(), 13);
    let (cipher, states) = encrypt(&crc, &kst, &header(), payload);
    let d = Data::new(payload.to_vec(), cipher, 0).unwrap();
    let mut zr = Zreduction::new(&d.keystream);
    zr.generate(&kst);
    assert_eq!(zr.size(), 64 << 16);
    zr.reduce(&crc, &kst);
    assert_eq!(zr.get_index(), 11);
    let truth = states[11].2 & 0xFFFF_FFFC;
    assert!(zr.get_zi_2_32_vector().contains(&truth));
}

#[test]
fn attack_recovers_the_keys() {
    let (crc, kst, mt) = tables();
    let payload = b"the quick brown fox jumps over the lazy dog!";
    let (cipher, states) = encrypt(&crc, &kst, &header(), payload);
    let d = Data::new(payload.to_vec(), cipher, 0).unwrap();
    let mut attack = Attack::new(&d, 0);
    let truth = states[11].2 & 0xFFFF_FFFC;
    assert!(attack.carry_out(&crc, &kst, &mt, truth));
    let keys = attack.get_keys();
    // the recovered keys are the state before the encryption header,
    // which the encryption started from
    assert_eq!(keys.get_x(), 0x12345678);
    assert_eq!(keys.get_y(), 0x23456789);
    assert_eq!(keys.get_z(), 0x34567890);
}

#[test]
fn attack_rejects_a_wrong_candidate() {
    let (crc, kst, mt) = tables();
    let payload = b"the quick brown fox jumps over the lazy dog!";
    let (cipher, states) = encrypt(&crc, &kst, &header(), payload);
    let d = Data::new(payload.to_vec(), cipher, 0).unwrap();
    let mut attack = Attack::new(&d, 0);
    let wrong = (states[11].2 & 0xFFFF_FFFC) ^ 0x0010_0000;
    assert!(!attack.carry_out(&crc, &kst, &mt, wrong));
}

#[test]
fn decipher_restores_the_plaintext() {
    let (crc, kst, _) = tables();
    let payload = b"some secret bytes, twenty-nine";
    let (cipher, _) = encrypt(&crc, &kst, &header(), payload);
    let mut keys = Keys::new();
    let out = decipher_bytes(&crc, &kst, &mut keys, &cipher);
    assert_eq!(out, payload.to_vec());
}

#[test]
fn recover_keys_rejects_short_overlap() {
    let (crc, kst, mt) = tables();
    let plain = vec![0u8; 11];
    let cipher = vec![0u8; 1000];
    match recover_keys(&crc, &kst, &mt, plain, cipher, 0, false) {
        Err(e) => assert_eq!(e, Error::InputTooShort),
        Ok(_) => panic!("an 11-byte plaintext must be rejected before any cryptanalysis"),
    }
}

fn local_header(name: &[u8], extra: &[u8], payload: &[u8]) -> Vec<u8> {
    let mut v = vec![0x50u8, 0x4b, 0x03, 0x04];
    v.extend_from_slice(&[0u8; 14]);
    v.extend_from_slice(&(payload.len() as u32).to_le_bytes());
    v.extend_from_slice(&[0u8; 4]);
    v.extend_from_slice(&(name.len() as u16).to_le_bytes());
    v.extend_from_slice(&(extra.len() as u16).to_le_bytes());
    v.extend_from_slice(name);
    v.extend_from_slice(extra);
    v.extend_from_slice(payload);
    v
}

#[test]
fn zip_walk_finds_the_named_entry() {
    let mut archive = local_header(b"first", b"xx", b"payload one");
    archive.extend_from_slice(&local_header(b"file", b"", b"the wanted bytes"));
    let got = zip_entry_data(&archive, &b"file".to_vec()).unwrap();
    assert_eq!(got, b"the wanted bytes".to_vec());
    let got = zip_entry_data(&archive, &b"first".to_vec()).unwrap();
    assert_eq!(got, b"payload one".to_vec());
}

#[test]
fn zip_walk_reports_the_failures() {
    let archive = local_header(b"first", b"", b"data");
    match zip_entry_data(&archive, &b"absent".to_vec()) {
        Err(e) => assert_eq!(e, Error::EntryNotFound),
        Ok(_) => panic!("an absent entry must be reported"),
    }
    match zip_entry_data(&vec![1u8, 2, 3, 4, 5, 6], &b"x".to_vec()) {
        Err(e) => assert_eq!(e, Error::EntryNotFound),
        Ok(_) => panic!("a truncated buffer holds no entry"),
    }
    let mut garbage = vec![0u8; 64];
    garbage[0] = 0xff;
    match zip_entry_data(&garbage, &b"x".to_vec()) {
        Err(e) => assert_eq!(e, Error::ArchiveMalformed),
        Ok(_) => panic!("a buffer without the signature is malformed"),
    }
}
