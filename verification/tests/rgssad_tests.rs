use easytier_gui::fangame::extract_error_message;
use easytier_gui::rgssad::{
    decrypt_file_data, decrypt_filename, decrypt_integer, find_scripts_in_rgssad, RgssadError,
};

fn next(k: u32) -> u32 {
    k.wrapping_mul(7).wrapping_add(3)
}

/// Builds an archive the way RPG Maker XP writes one.
fn archive(entries: &[(&str, &[u8])]) -> Vec<u8> {
    let mut out = b"RGSSAD\0\x01".to_vec();
    let mut key: u32 = 0xDEAD_CAFE;
    for (name, data) in entries {
        out.extend_from_slice(&((name.len() as u32) ^ key).to_le_bytes());
        key = next(key);
        for b in name.as_bytes() {
            out.push(b ^ (key as u8));
            key = next(key);
        }
        out.extend_from_slice(&((data.len() as u32) ^ key).to_le_bytes());
        key = next(key);
        out.extend_from_slice(&decrypt_file_data(data, key));
    }
    out
}

#[test]
fn decrypt_integer_steps_key() {
    let mut k: u32 = 0xDEAD_CAFE;
    assert_eq!(decrypt_integer(0, &mut k), 0xDEAD_CAFE);
    assert_eq!(k, 0xDEAD_CAFEu32.wrapping_mul(7).wrapping_add(3));
    let mut k: u32 = 5;
    assert_eq!(decrypt_integer(1, &mut k), 4);
    assert_eq!(k, 38);
}

#[test]
fn decrypt_filename_steps_key_per_byte() {
    let mut k: u32 = 0x0102_0304;
    let enc = [b'a' ^ 0x04, b'b' ^ (next(0x0102_0304) as u8)];
    assert_eq!(decrypt_filename(&enc, &mut k), "ab");
    assert_eq!(k, next(next(0x0102_0304)));
}

#[test]
fn decrypt_file_data_uses_key_bytes() {
    let out = decrypt_file_data(&[0, 0, 0, 0, 0], 0x0403_0201);
    let k2 = next(0x0403_0201);
    assert_eq!(out, vec![1, 2, 3, 4, k2 as u8]);
}

#[test]
fn law_file_data_involution() {
    let data: Vec<u8> = (0..37u8).collect();
    let once = decrypt_file_data(&data, 0xDEAD_BEEF);
    assert_ne!(once, data);
    assert_eq!(decrypt_file_data(&once, 0xDEAD_BEEF), data);
}

#[test]
fn finds_scripts_entry() {
    let a = archive(&[("Data\\Map001.rxdata", b"map"), ("Data\\Scripts.rxdata", b"scripts!")]);
    match find_scripts_in_rgssad(&a) {
        Ok(d) => assert_eq!(d, b"scripts!".to_vec()),
        Err(_) => panic!("scripts not found"),
    }
    let a = archive(&[("data/SCRIPTS.RXDATA", b"x")]);
    assert!(matches!(find_scripts_in_rgssad(&a), Ok(d) if d == b"x".to_vec()));
}

#[test]
fn errors_of_each_kind() {
    assert!(matches!(find_scripts_in_rgssad(b"RGSS"), Err(RgssadError::Truncated)));
    assert!(matches!(find_scripts_in_rgssad(b"RGSSAD\0"), Err(RgssadError::Truncated)));
    assert!(matches!(find_scripts_in_rgssad(b"NOTRGS\0\x01"), Err(RgssadError::NotArchive)));
    assert!(matches!(find_scripts_in_rgssad(b"RGSSAD\0\x03"), Err(RgssadError::BadVersion(3))));
    let a = archive(&[("Graphics\\a.png", b"p"), ("Audio\\b.ogg", b"o")]);
    match find_scripts_in_rgssad(&a) {
        Err(RgssadError::NotFound(names)) => {
            assert_eq!(names, vec!["Graphics\\a.png".to_string(), "Audio\\b.ogg".to_string()])
        }
        _ => panic!("expected not found"),
    }
    // a truncated last entry ends the scan
    let mut a = archive(&[("x", b"1"), ("Data/Scripts.rxdata", b"abcdef")]);
    a.truncate(a.len() - 1);
    match find_scripts_in_rgssad(&a) {
        Err(RgssadError::NotFound(names)) => assert_eq!(names.len(), 2),
        _ => panic!("expected not found"),
    }
}

#[test]
fn error_messages() {
    assert_eq!(extract_error_message(&RgssadError::Truncated), "failed to fill whole buffer");
    assert_eq!(extract_error_message(&RgssadError::NotArchive), "Not a valid RGSSAD archive");
    assert_eq!(extract_error_message(&RgssadError::BadVersion(2)), "Unsupported RGSSAD version 2");
    let names: Vec<String> = (0..10).map(|i| format!("f{}", i)).collect();
    assert_eq!(
        extract_error_message(&RgssadError::NotFound(names)),
        "Scripts.rxdata not found (10 entries, e.g. [\"f0\", \"f1\", \"f2\", \"f3\", \"f4\", \"f5\", \"f6\", \"f7\"])"
    );
    assert_eq!(
        extract_error_message(&RgssadError::NotFound(vec![])),
        "Scripts.rxdata not found (0 entries, e.g. [])"
    );
}
