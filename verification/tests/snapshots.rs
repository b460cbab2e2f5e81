use remote_viewer_host::snapshots::{
    decrypt, derive_key, encrypt, entries, list, place, seal, shot_file_name, shot_id_of,
    snapshot_due, store, temp_file_name, total_size_of, unprotect_key, DirFile, PendingShot,
    ShotEntry, SnapshotError, StoreStart,
};

#[test]
fn encrypted_files_roundtrip_and_detect_tampering() {
    let key = derive_key(b"sample-password", b"unique-salt-1234").unwrap();
    let mut sealed = encrypt(&key, b"jpeg data").unwrap();
    assert_eq!(sealed.len(), b"jpeg data".len() + 35);
    assert_ne!(sealed, b"jpeg data");
    assert_eq!(decrypt(&key, &sealed).unwrap(), b"jpeg data");
    *sealed.last_mut().unwrap() ^= 1;
    assert!(decrypt(&key, &sealed).is_err());
}

#[test]
fn derive_key_is_deterministic_and_salted() {
    let a = derive_key(b"password", b"0123456789abcdef").unwrap();
    let b = derive_key(b"password", b"0123456789abcdef").unwrap();
    let c = derive_key(b"password", b"0123456789abcdeF").unwrap();
    assert_eq!(a, b);
    assert_ne!(a, c);
    assert_ne!(a, [0u8; 32]);
}

#[test]
fn sealed_file_layout() {
    let key = [7u8; 32];
    let nonce = [3u8; 12];
    let data = seal(&key, &nonce, b"frame").unwrap();
    assert_eq!(&data[..7], b"RVSHOT1");
    assert_eq!(&data[7..19], &nonce);
    assert_eq!(data.len(), 7 + 12 + 5 + 16);
    assert_ne!(&data[19..24], b"frame");
    assert_eq!(decrypt(&key, &data).unwrap(), b"frame");
    let again = seal(&key, &nonce, b"frame").unwrap();
    assert_eq!(data, again);
}

#[test]
fn encrypt_uses_fresh_nonces() {
    let key = [1u8; 32];
    let a = encrypt(&key, b"same").unwrap();
    let b = encrypt(&key, b"same").unwrap();
    assert_ne!(a, b);
    assert_eq!(decrypt(&key, &a).unwrap(), b"same");
    assert_eq!(decrypt(&key, &b).unwrap(), b"same");
}

#[test]
fn decrypt_errors() {
    let key = [1u8; 32];
    let data = encrypt(&key, b"").unwrap();
    assert_eq!(data.len(), 35);
    assert_eq!(decrypt(&key, &data).unwrap(), Vec::<u8>::new());
    assert_eq!(decrypt(&key, &data[..34]), Err(SnapshotError::InvalidFile));
    let mut wrong_header = data.clone();
    wrong_header[0] = b'X';
    assert_eq!(decrypt(&key, &wrong_header), Err(SnapshotError::InvalidFile));
    assert_eq!(decrypt(&[2u8; 32], &data), Err(SnapshotError::AuthenticationFailed));
}

#[test]
fn unprotect_key_wants_32_bytes() {
    let raw: Vec<u8> = (0u8..32).collect();
    let key = unprotect_key(&raw).unwrap();
    assert_eq!(key.to_vec(), raw);
    assert_eq!(unprotect_key(&raw[..31]), Err(SnapshotError::InvalidProtectedKey));
    let mut long = raw.clone();
    long.push(0);
    assert_eq!(unprotect_key(&long), Err(SnapshotError::InvalidProtectedKey));
}

#[test]
fn shot_names() {
    assert_eq!(shot_id_of("123.shot"), Some(123));
    assert_eq!(shot_id_of("+7.shot"), Some(7));
    assert_eq!(shot_id_of("007.shot"), Some(7));
    assert_eq!(shot_id_of("18446744073709551615.shot"), Some(u64::MAX));
    assert_eq!(shot_id_of("18446744073709551616.shot"), None);
    assert_eq!(shot_id_of(".shot"), None);
    assert_eq!(shot_id_of("+.shot"), None);
    assert_eq!(shot_id_of("12.tmp"), None);
    assert_eq!(shot_id_of("12.SHOT"), None);
    assert_eq!(shot_id_of("1.2.shot"), None);
    assert_eq!(shot_id_of("-1.shot"), None);
    assert_eq!(shot_id_of("é1.shot"), None);
    assert_eq!(shot_file_name(1234567), "1234567.shot");
    assert_eq!(shot_file_name(0), "0.shot");
    assert_eq!(temp_file_name(u64::MAX), "18446744073709551615.tmp");
}

fn file(name: &str, size: u64) -> DirFile {
    DirFile { name: name.to_string(), size }
}

#[test]
fn entries_are_filtered_and_sorted_stably() {
    let listing = vec![
        file("30.shot", 3),
        file("notes.txt", 100),
        file("10.shot", 1),
        file("20.tmp", 2),
        file("010.shot", 5),
        file("20.shot", 2),
    ];
    let e = entries(&listing);
    let got: Vec<(u64, String, u64)> = e.into_iter().map(|e| (e.id, e.name, e.size)).collect();
    assert_eq!(
        got,
        vec![
            (10, "10.shot".to_string(), 1),
            (10, "010.shot".to_string(), 5),
            (20, "20.shot".to_string(), 2),
            (30, "30.shot".to_string(), 3),
        ]
    );
}

#[test]
fn list_is_newest_first_and_capped() {
    let listing = vec![file("5.shot", 1), file("9.shot", 1), file("1.shot", 1)];
    assert_eq!(list(&listing), vec![9, 5, 1]);
    assert_eq!(list(&Vec::new()), Vec::<u64>::new());
    let many: Vec<DirFile> = (0..1500u64).map(|i| file(&format!("{i}.shot"), 1)).collect();
    let ids = list(&many);
    assert_eq!(ids.len(), 1000);
    assert_eq!(ids[0], 1499);
    assert_eq!(ids[999], 500);
}

#[test]
fn snapshot_interval() {
    assert!(snapshot_due(60_000_000, 0));
    assert!(!snapshot_due(59_999_999, 0));
    assert!(!snapshot_due(5, 10));
}

#[test]
fn store_skips_recent_frames() {
    let key = [4u8; 32];
    let listing = vec![file("100000000.shot", 10)];
    assert!(matches!(store(159_999_999, b"f", &key, &listing), Ok(StoreStart::Skip)));
    assert!(matches!(store(50, b"f", &key, &listing), Ok(StoreStart::Skip)));
    match store(160_000_000, b"frame", &key, &listing) {
        Ok(StoreStart::Pending(p)) => {
            assert_eq!(p.id, 160_000_000);
            assert_eq!(p.entries.len(), 1);
            assert_eq!(decrypt(&key, &p.data).unwrap(), b"frame");
        }
        _ => panic!("expected a pending frame"),
    }
    assert!(matches!(store(1, b"f", &key, &Vec::new()), Ok(StoreStart::Pending(_))));
}

fn entry(id: u64, size: u64) -> ShotEntry {
    ShotEntry { id, name: format!("{id}.shot"), size }
}

#[test]
fn placement_evicts_oldest_until_quota_fits() {
    // capacity 2000 gives a quota of 100 bytes
    let pending = PendingShot {
        id: 9,
        entries: vec![entry(1, 30), entry(2, 30), entry(3, 30)],
        data: vec![0; 40],
    };
    assert_eq!(total_size_of(&pending.entries), Some(90));
    let p = place(pending, 2000).unwrap();
    assert_eq!(p.evict, vec!["1.shot".to_string()]);
    assert_eq!(p.data.len(), 40);
    assert_eq!(p.file_name, "9.shot");
    assert_eq!(p.temp_name, "9.tmp");

    let heavy = PendingShot {
        id: 9,
        entries: vec![entry(1, 30), entry(2, 30), entry(3, 30)],
        data: vec![0; 50],
    };
    assert_eq!(place(heavy, 2000).unwrap().evict, vec!["1.shot".to_string(), "2.shot".to_string()]);

    let roomy = PendingShot { id: 9, entries: vec![entry(1, 30)], data: vec![0; 70] };
    assert!(place(roomy, 2000).unwrap().evict.is_empty());

    let exact = PendingShot { id: 9, entries: vec![entry(1, 30), entry(2, 31)], data: vec![0; 70] };
    assert_eq!(place(exact, 2000).unwrap().evict, vec!["1.shot".to_string(), "2.shot".to_string()]);
}

#[test]
fn placement_refuses_frames_over_quota() {
    let pending = PendingShot { id: 1, entries: vec![], data: vec![0; 101] };
    assert!(matches!(place(pending, 2000), Err(SnapshotError::QuotaExceeded)));
    let fits = PendingShot { id: 1, entries: vec![entry(1, 5)], data: vec![0; 100] };
    assert_eq!(place(fits, 2019).unwrap().evict.len(), 1);
}

#[test]
fn total_size_overflow_is_reported() {
    assert_eq!(total_size_of(&vec![entry(1, u64::MAX), entry(2, 1)]), None);
    assert_eq!(total_size_of(&vec![entry(1, u64::MAX - 1), entry(2, 1)]), Some(u64::MAX));
}

#[test]
fn stored_names_are_listed_back() {
    for id in [0u64, 9, 10, 60_000_000, u64::MAX] {
        assert_eq!(shot_id_of(&shot_file_name(id)), Some(id));
        assert_eq!(shot_id_of(&temp_file_name(id)), None);
    }
}

#[test]
fn any_changed_tag_byte_is_refused() {
    let key = [9u8; 32];
    let sealed = encrypt(&key, b"frame bytes").unwrap();
    for i in sealed.len() - 16..sealed.len() {
        let mut t = sealed.clone();
        t[i] ^= 0x80;
        assert_eq!(decrypt(&key, &t), Err(SnapshotError::AuthenticationFailed));
    }
}
