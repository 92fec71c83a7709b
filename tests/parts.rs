use easy_pow::{
    get_message_count, HashType, Md5, PowSearchParameters, Sha1, Sha224, Sha256, Sha384, Sha512,
};

fn hex(s: &str) -> Vec<u8> {
    (0..s.len())
        .step_by(2)
        .map(|i| u8::from_str_radix(&s[i..i + 2], 16).unwrap())
        .collect()
}

#[test]
fn test_get_message_count() {
    assert_eq!(
        get_message_count(&vec![
            vec![b'1', b'2', b'3', b'4'],
            vec![b'1', b'2', b'3'],
            vec![b'1', b'2'],
            vec![b'1', b'2', b'3', b'4'],
        ]),
        vec![96, 24, 8, 4]
    );

    let v = vec![(0..=255).collect::<Vec<u8>>(); 10];
    assert_eq!(
        get_message_count(&v),
        vec![
            18446744073709551615,
            18446744073709551615,
            18446744073709551615,
            72057594037927936,
            281474976710656,
            1099511627776,
            4294967296,
            16777216,
            65536,
            256
        ]
    );
}

#[test]
fn message_count_edge_cases() {
    assert_eq!(get_message_count(&[]), Vec::<usize>::new());
    assert_eq!(get_message_count(&[vec![1, 2], vec![], vec![3]]), vec![0, 0, 1]);
    // A zero below a saturated product brings it back to zero.
    let mut v = vec![(0..=255).collect::<Vec<u8>>(); 9];
    v.push(vec![]);
    assert_eq!(get_message_count(&v)[0], 0);
}

#[test]
fn digests_of_abc() {
    assert_eq!(<Md5 as easy_pow::digest::Hash>::hash(b"abc"), hex("900150983cd24fb0d6963f7d28e17f72"));
    assert_eq!(<Sha1 as easy_pow::digest::Hash>::hash(b"abc"), hex("a9993e364706816aba3e25717850c26c9cd0d89d"));
    assert_eq!(
        <Sha224 as easy_pow::digest::Hash>::hash(b"abc"),
        hex("23097d223405d8228642a477bda255b32aadbce4bda0b3f7e36c9da7")
    );
    assert_eq!(
        <Sha256 as easy_pow::digest::Hash>::hash(b"abc"),
        hex("ba7816bf8f01cfea414140de5dae2223b00361a396177a9cb410ff61f20015ad")
    );
    assert_eq!(
        <Sha384 as easy_pow::digest::Hash>::hash(b"abc"),
        hex("cb00753f45a35e8bb5a03d699ac65007272c32ab0eded1631a8b605a43ff5bed8086072ba1e7cc2358baeca134c825a7")
    );
    assert_eq!(
        <Sha512 as easy_pow::digest::Hash>::hash(b"abc"),
        hex("ddaf35a193617abacc417349ae20413112e6fa4e89a97ea20a9eeee64b55d39a2192992a274fc1a836ba3c23a3feebbd454d4423643ce80e2a9ac94fa54ca49f")
    );
    assert_eq!(HashType::Sha256.hash(b"abc"), <Sha256 as easy_pow::digest::Hash>::hash(b"abc"));
}

#[test]
fn widths_and_block_size() {
    let widths = [
        (HashType::Md5, 16),
        (HashType::Sha1, 20),
        (HashType::Sha224, 28),
        (HashType::Sha256, 32),
        (HashType::Sha384, 48),
        (HashType::Sha512, 64),
    ];
    for (t, w) in widths {
        assert_eq!(t.hash_bytes(), w);
        assert_eq!(t.hash(b"").len(), w);
        assert_eq!(t.parallel_block_size(), 4096);
    }
}

#[test]
fn check_hash_compares_masked_bits() {
    let params = PowSearchParameters {
        hash_type: HashType::Md5,
        target_hash: vec![0xf0; 16],
        target_hash_mask: {
            let mut m = vec![0u8; 16];
            m[0] = 0xf0;
            m[15] = 0x01;
            m
        },
        plaintext_character_map: vec![],
    };
    let mut digest = vec![0xf5u8; 16];
    digest[15] = 0x00;
    assert!(params.check_hash(&digest));
    digest[0] = 0xe0;
    assert!(!params.check_hash(&digest));
    digest[0] = 0xf0;
    digest[15] = 0x01;
    assert!(!params.check_hash(&digest));
}

#[test]
fn hash_type_names_ignore_case() {
    assert_eq!("md5".parse::<HashType>().unwrap(), HashType::Md5);
    assert_eq!("SHA1".parse::<HashType>().unwrap(), HashType::Sha1);
    assert_eq!(HashType::from_name("Sha224").unwrap(), HashType::Sha224);
    assert_eq!(HashType::from_name("sHa256").unwrap(), HashType::Sha256);
    assert_eq!(HashType::from_name("SHA384").unwrap(), HashType::Sha384);
    assert_eq!(HashType::from_name("sha512").unwrap(), HashType::Sha512);
    let err = HashType::from_name("sha3").unwrap_err();
    assert_eq!(err.message(), "invalid hash type");
    assert!(HashType::from_name("").is_err());
    assert!(HashType::from_lowered(b"SHA1").is_err());
    assert_eq!(HashType::from_lowered(b"sha1").unwrap(), HashType::Sha1);
}
