use alog_sink::admin::{
    background_reply, check_admin_auth, default_background_height, default_background_width,
    finish_background_update, get_background, latest_index, pack_bitmap, sort_newest_first,
    Background, BackgroundReply, BackgroundRequestQuery, BackgroundState, DoorstepError,
    HASH_SEED,
};

#[test]
fn background_state_round_trip() {
    let state = BackgroundState::new(vec![1, 2, 3], 42, "bg.png".to_string());
    assert_eq!(state.data(), &[1, 2, 3]);
    assert_eq!(state.hash(), 42);
    assert_eq!(state.name(), "bg.png");
}

#[test]
fn defaults_match_display() {
    assert_eq!(default_background_width(), 960);
    assert_eq!(default_background_height(), 540);
}

#[test]
fn update_hashes_with_the_fixed_seed() {
    let data = vec![10u8, 20, 30, 40];
    let expected = xxhash_rust::xxh32::xxh32(&data, HASH_SEED);
    let (state, hash) = finish_background_update(data.clone(), "name".to_string());
    assert_eq!(hash, expected);
    assert_eq!(state.hash(), expected);
    assert_eq!(state.data(), data.as_slice());
    assert_eq!(state.name(), "name");
}

#[test]
fn get_background_copies_current_state() {
    let state = BackgroundState::new(vec![9, 8, 7], 5, "x".to_string());
    let bg = get_background(Some(&state)).expect("a set background is returned");
    assert_eq!(bg.bytes(), &[9, 8, 7]);
    assert_eq!(bg.hash(), 5);
}

#[test]
fn get_background_without_state_is_not_found() {
    match get_background(None) {
        Err(DoorstepError::NotFound(_)) => {}
        other => panic!("expected not-found, got {:?}", other),
    }
}

#[test]
fn error_status_codes() {
    assert_eq!(DoorstepError::NotFound("x".to_string()).status_code(), 404);
    assert_eq!(DoorstepError::InvalidRequest("x".to_string()).status_code(), 400);
    assert_eq!(DoorstepError::InternalError("x".to_string()).status_code(), 500);
}

fn sample_background() -> Background {
    let state = BackgroundState::new(vec![1, 2], 77, "n".to_string());
    get_background(Some(&state)).unwrap()
}

#[test]
fn known_hash_is_not_modified() {
    let reply = background_reply(sample_background(), BackgroundRequestQuery {
        known_hash: Some(77),
    });
    match reply {
        BackgroundReply::NotModified(h) => assert_eq!(h, 77),
        other => panic!("expected not-modified, got {:?}", other),
    }
}

#[test]
fn stale_or_absent_hash_gets_the_image() {
    for query in [
        BackgroundRequestQuery { known_hash: Some(1) },
        BackgroundRequestQuery { known_hash: None },
    ] {
        match background_reply(sample_background(), query) {
            BackgroundReply::Full(bytes, h) => {
                assert_eq!(bytes, vec![1, 2]);
                assert_eq!(h, 77);
            }
            other => panic!("expected the image, got {:?}", other),
        }
    }
}

#[test]
fn auth_requires_both_user_and_password() {
    assert!(check_admin_auth("admin", "pw", "admin", "pw"));
    assert!(!check_admin_auth("admin", "bad", "admin", "pw"));
    assert!(!check_admin_auth("other", "pw", "admin", "pw"));
    assert!(!check_admin_auth("", "", "admin", "pw"));
}

#[test]
fn pack_bitmap_odd_width() {
    let pixels = vec![0x12u8, 0x34, 0x56, 0x78, 0x9A, 0xBC];
    let packed = pack_bitmap(&pixels, 3, 2);
    assert_eq!(packed, vec![0x31, 0x05, 0x97, 0x0B]);
}

#[test]
fn pack_bitmap_even_width() {
    let pixels = vec![0xF0u8, 0x0F, 0xAB, 0xCD];
    let packed = pack_bitmap(&pixels, 4, 1);
    assert_eq!(packed, vec![0x0F, 0xCA]);
}

#[test]
fn pack_bitmap_empty() {
    let packed = pack_bitmap(&[], 0, 0);
    assert_eq!(packed, Vec::new());
}

#[test]
fn listing_is_ordered_newest_first() {
    let files = vec![
        (100u64, "old.png".to_string()),
        (300, "new.png".to_string()),
        (200, "mid.png".to_string()),
        (300, "other.png".to_string()),
    ];
    let sorted = sort_newest_first(files);
    let keys: Vec<u64> = sorted.iter().map(|p| p.0).collect();
    assert_eq!(keys, vec![300, 300, 200, 100]);
    let mut names: Vec<String> = sorted.into_iter().map(|p| p.1).collect();
    names.sort();
    assert_eq!(names, vec!["mid.png", "new.png", "old.png", "other.png"]);
}

#[test]
fn latest_index_picks_last_maximum() {
    assert_eq!(latest_index(&vec![]), None);
    assert_eq!(latest_index(&vec![5]), Some(0));
    assert_eq!(latest_index(&vec![1, 9, 3]), Some(1));
    assert_eq!(latest_index(&vec![9, 1, 9]), Some(2));
}
