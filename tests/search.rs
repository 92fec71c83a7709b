use std::sync::atomic::{AtomicBool, Ordering};
use std::sync::Arc;

use easy_pow::{
    finish, search, search_by_hash_type, HashType, Md5, PowSearchParameters, SearchResult,
    ThreadConfig, Walk, on_offer, settle, Offer,
};

fn two_threads() -> ThreadConfig {
    ThreadConfig {
        thread_count: Some(2),
        cancel: None,
    }
}

fn abcde_map(len: usize) -> Vec<Vec<u8>> {
    vec![vec![b'a', b'b', b'c', b'd', b'e']; len]
}

#[test]
fn test_search_openssl_md5() {
    let md5_abcde = b"\xab\x56\xb4\xd9\x2b\x40\x71\x3a\xcc\x5a\xf8\x99\x85\xd4\xb7\x86";
    let md5_mask = b"\xff\xff\xff\xff\xff\xff\xff\xff\xff\xff\xff\xff\xff\xff\xff\xff";
    let search_params = PowSearchParameters {
        hash_type: HashType::Md5,
        target_hash: md5_abcde.to_vec(),
        target_hash_mask: md5_mask.to_vec(),
        plaintext_character_map: abcde_map(5),
    };
    match search(search_params, &two_threads()) {
        SearchResult::Found(found) => {
            assert_eq!(found, vec![b'a', b'b', b'c', b'd', b'e']);
        }
        SearchResult::NotFound => {
            panic!("Unexpected not found");
        }
        _ => {
            panic!("Unexpected error");
        }
    }

    let md5_zero = &[0u8; 16];
    let md5_mask = &[255, 255, 0, 0, 0, 0, 0, 0, 0, 0, 0, 0, 0, 0, 0, 0];

    let search_params = PowSearchParameters {
        hash_type: HashType::Md5,
        target_hash: md5_zero.to_vec(),
        target_hash_mask: md5_mask.to_vec(),
        plaintext_character_map: abcde_map(20),
    };
    match search(search_params, &ThreadConfig::default()) {
        SearchResult::Found(found) => {
            let digest = <Md5 as easy_pow::digest::Hash>::hash(&found);
            assert_eq!(digest[0], 0);
            assert_eq!(digest[1], 0);
        }
        SearchResult::NotFound => {
            panic!("Unexpected not found");
        }
        _ => {
            panic!("Unexpected error");
        }
    }
}

#[test]
fn test_search_rust_crypto_md5() {
    let md5_abcde = b"\xab\x56\xb4\xd9\x2b\x40\x71\x3a\xcc\x5a\xf8\x99\x85\xd4\xb7\x86";
    let md5_mask = b"\xff\xff\xff\xff\xff\xff\xff\xff\xff\xff\xff\xff\xff\xff\xff\xff";
    let search_params = PowSearchParameters {
        hash_type: HashType::Md5,
        target_hash: md5_abcde.to_vec(),
        target_hash_mask: md5_mask.to_vec(),
        plaintext_character_map: abcde_map(5),
    };
    match search(
        search_params,
        &ThreadConfig {
            thread_count: Some(2),
            cancel: None,
        },
    ) {
        SearchResult::Found(found) => {
            assert_eq!(found, vec![b'a', b'b', b'c', b'd', b'e']);
        }
        SearchResult::NotFound => {
            panic!("Unexpected not found");
        }
        _ => {
            panic!("Unexpected error");
        }
    }

    let md5_zero = &[0u8; 16];
    let md5_mask = &[255, 255, 0, 0, 0, 0, 0, 0, 0, 0, 0, 0, 0, 0, 0, 0];

    let search_params = PowSearchParameters {
        hash_type: HashType::Md5,
        target_hash: md5_zero.to_vec(),
        target_hash_mask: md5_mask.to_vec(),
        plaintext_character_map: abcde_map(20),
    };
    match search(
        search_params,
        &ThreadConfig {
            thread_count: Some(2),
            cancel: None,
        },
    ) {
        SearchResult::Found(found) => {
            let digest = <Md5 as easy_pow::digest::Hash>::hash(&found);
            assert_eq!(digest[0], 0);
            assert_eq!(digest[1], 0);
        }
        SearchResult::NotFound => {
            panic!("Unexpected not found");
        }
        _ => {
            panic!("Unexpected error");
        }
    }
}

fn masked_match(digest: &[u8], target: &[u8], mask: &[u8]) -> bool {
    digest.len() == target.len()
        && digest
            .iter()
            .zip(target.iter().zip(mask.iter()))
            .all(|(d, (t, m))| d & m == t & m)
}

#[test]
fn found_result_is_in_domain_and_matches() {
    let map = vec![
        vec![b'x', b'y', b'z'],
        vec![b'0', b'1', b'2', b'3', b'4', b'5', b'6', b'7'],
        vec![b'q'],
        vec![b'a', b'b', b'c', b'd', b'e', b'f', b'g', b'h', b'i'],
    ];
    let target = vec![0u8; 32];
    let mut mask = vec![0u8; 32];
    mask[0] = 0x0f;
    match search_by_hash_type(HashType::Sha256, &target, &mask, &map, &two_threads()) {
        SearchResult::Found(found) => {
            assert_eq!(found.len(), map.len());
            for (i, b) in found.iter().enumerate() {
                assert!(map[i].contains(b));
            }
            let digest = HashType::Sha256.hash(&found);
            assert!(masked_match(&digest, &target, &mask));
        }
        other => panic!("unexpected outcome {:?}", other),
    }
}

#[test]
fn single_thread_returns_first_match_in_map_order() {
    // Every plaintext matches an empty mask: one worker meets "aa" first.
    let map = vec![vec![b'a', b'b'], vec![b'a', b'b']];
    let result = search_by_hash_type(
        HashType::Sha1,
        &[0u8; 20],
        &[0u8; 20],
        &map,
        &ThreadConfig {
            thread_count: Some(1),
            cancel: None,
        },
    );
    assert_eq!(result, SearchResult::Found(vec![b'a', b'a']));
}

#[test]
fn exhaustive_cross_check_on_small_domains() {
    let map = vec![vec![b'a', b'b', b'c'], vec![b'x', b'y'], vec![b'1', b'2', b'3']];
    let mut all = Vec::new();
    for a in &map[0] {
        for b in &map[1] {
            for c in &map[2] {
                all.push(vec![*a, *b, *c]);
            }
        }
    }
    // A target taken from one member, under a full mask, is found; a target
    // that no member hashes to is not.
    for candidate in &all {
        let target = HashType::Md5.hash(candidate);
        let full = vec![0xffu8; 16];
        let r = search_by_hash_type(HashType::Md5, &target, &full, &map, &two_threads());
        assert_eq!(r, SearchResult::Found(candidate.clone()));
    }
    let outside = HashType::Md5.hash(b"not in the domain");
    assert!(all
        .iter()
        .all(|c| HashType::Md5.hash(c) != outside));
    let r = search_by_hash_type(HashType::Md5, &outside, &[0xffu8; 16], &map, &two_threads());
    assert_eq!(r, SearchResult::NotFound);
}

#[test]
fn not_found_on_full_exploration() {
    let map = abcde_map(4);
    let target = HashType::Md5.hash(b"zzzz");
    let r = search_by_hash_type(
        HashType::Md5,
        &target,
        &[0xffu8; 16],
        &map,
        &ThreadConfig {
            thread_count: Some(3),
            cancel: None,
        },
    );
    assert_eq!(r, SearchResult::NotFound);
}

#[test]
fn empty_alphabet_gives_not_found() {
    let map = vec![vec![b'a'], vec![], vec![b'b']];
    let r = search_by_hash_type(HashType::Md5, &[0u8; 16], &[0u8; 16], &map, &two_threads());
    assert_eq!(r, SearchResult::NotFound);
}

#[test]
fn empty_map_checks_the_empty_plaintext() {
    let empty_md5 = HashType::Md5.hash(b"");
    let r = search_by_hash_type(HashType::Md5, &empty_md5, &[0xffu8; 16], &[], &two_threads());
    assert_eq!(r, SearchResult::Found(vec![]));
    let r = search_by_hash_type(HashType::Md5, &[0u8; 16], &[0xffu8; 16], &[], &two_threads());
    assert_eq!(r, SearchResult::NotFound);
}

#[test]
fn cancellation_ends_the_search() {
    let cancel = Arc::new(AtomicBool::new(false));
    cancel.store(true, Ordering::Relaxed);
    // An impossible target over a space far too large to exhaust.
    let map = vec![(0..=255).collect::<Vec<u8>>(); 8];
    let r = search_by_hash_type(
        HashType::Sha256,
        &[0u8; 32],
        &[0xffu8; 32],
        &map,
        &ThreadConfig {
            thread_count: Some(2),
            cancel: Some(cancel.clone()),
        },
    );
    assert!(matches!(r, SearchResult::NotFound | SearchResult::Found(_)));
}

#[test]
fn invalid_target_length() {
    let map = abcde_map(2);
    let r = search_by_hash_type(HashType::Sha1, &[0u8; 16], &[0u8; 20], &map, &two_threads());
    assert_eq!(r, SearchResult::InvalidTargetHashLength);
    // The target is checked first.
    let r = search_by_hash_type(HashType::Sha1, &[0u8; 16], &[0u8; 16], &map, &two_threads());
    assert_eq!(r, SearchResult::InvalidTargetHashLength);
}

#[test]
fn invalid_mask_length() {
    let map = abcde_map(2);
    let r = search_by_hash_type(HashType::Sha512, &[0u8; 64], &[0u8; 63], &map, &two_threads());
    assert_eq!(r, SearchResult::InvalidTargetHashMaskLength);
}

#[test]
fn zero_workers_is_an_unexpected_error() {
    let map = abcde_map(2);
    let r = search_by_hash_type(
        HashType::Md5,
        &[0u8; 16],
        &[0u8; 16],
        &map,
        &ThreadConfig {
            thread_count: Some(0),
            cancel: None,
        },
    );
    assert_eq!(r, SearchResult::UnexpectedError);
}

#[test]
fn finish_maps_each_pool_outcome() {
    let abcde_md5 = HashType::Md5.hash(b"abcde");
    let params = PowSearchParameters {
        hash_type: HashType::Md5,
        target_hash: abcde_md5,
        target_hash_mask: vec![0xff; 16],
        plaintext_character_map: abcde_map(5),
    };
    assert_eq!(
        finish(&params, Some(Walk::Found(b"abcde".to_vec()))),
        SearchResult::Found(b"abcde".to_vec())
    );
    // In the domain but with another digest.
    assert_eq!(
        finish(&params, Some(Walk::Found(b"edcba".to_vec()))),
        SearchResult::UnexpectedError
    );
    // Outside the domain.
    assert_eq!(
        finish(&params, Some(Walk::Found(b"abcdf".to_vec()))),
        SearchResult::UnexpectedError
    );
    assert_eq!(finish(&params, Some(Walk::Finished)), SearchResult::NotFound);
    assert_eq!(finish(&params, Some(Walk::Stopped)), SearchResult::NotFound);
    assert_eq!(finish(&params, Some(Walk::Broken)), SearchResult::UnexpectedError);
    assert_eq!(finish(&params, None), SearchResult::UnexpectedError);
}

fn abcde_params() -> PowSearchParameters {
    PowSearchParameters {
        hash_type: HashType::Md5,
        target_hash: HashType::Md5.hash(b"abcde"),
        target_hash_mask: vec![0xff; 16],
        plaintext_character_map: abcde_map(5),
    }
}

fn found_value(w: Walk) -> Option<Vec<u8>> {
    match w {
        Walk::Found(v) => Some(v),
        _ => None,
    }
}

#[test]
fn on_offer_maps_each_offer_outcome() {
    let params = abcde_params();
    assert_eq!(
        found_value(on_offer(&params, Offer::Received(b"abcde".to_vec()))),
        Some(b"abcde".to_vec())
    );
    assert!(matches!(on_offer(&params, Offer::Received(b"abcdd".to_vec())), Walk::Broken));
    assert!(matches!(on_offer(&params, Offer::Sent), Walk::Finished));
    assert!(matches!(on_offer(&params, Offer::Disconnected), Walk::Broken));
}

#[test]
fn settle_combines_walk_and_drain() {
    let params = abcde_params();
    assert_eq!(
        found_value(settle(&params, Walk::Found(b"abcde".to_vec()), None)),
        Some(b"abcde".to_vec())
    );
    assert!(matches!(settle(&params, Walk::Broken, Some(b"abcde".to_vec())), Walk::Broken));
    assert!(matches!(settle(&params, Walk::Finished, None), Walk::Finished));
    assert!(matches!(settle(&params, Walk::Stopped, None), Walk::Finished));
    assert_eq!(
        found_value(settle(&params, Walk::Finished, Some(b"abcde".to_vec()))),
        Some(b"abcde".to_vec())
    );
    assert!(matches!(settle(&params, Walk::Finished, Some(b"eeeee".to_vec())), Walk::Broken));
}

#[test]
fn single_thread_first_match_with_repeated_bytes() {
    // Bytes repeated in an alphabet: the first occurrence decides the order.
    let map = vec![vec![b'b', b'a', b'b'], vec![b'a', b'b']];
    let result = search_by_hash_type(
        HashType::Md5,
        &[0u8; 16],
        &[0u8; 16],
        &map,
        &ThreadConfig {
            thread_count: Some(1),
            cancel: None,
        },
    );
    assert_eq!(result, SearchResult::Found(vec![b'b', b'a']));
}
