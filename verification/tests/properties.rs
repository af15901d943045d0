use xxhash_rust::xxh32::{xxh32, Xxh32};
use xxhash_rust::xxh64::{xxh64, Xxh64, Xxh64Builder};
use xxhash_rust::xxh3::{
    xxh3_64, xxh3_64_with_seed, xxh3_64_with_secret, xxh3_128, xxh3_128_with_seed,
    xxh3_128_with_secret, Xxh3, Xxh3Builder,
};
use xxhash_rust::const_xxh3::const_custom_default_secret;

fn corpus(len: usize) -> Vec<u8> {
    let mut out = Vec::with_capacity(len);
    for i in 0..len {
        out.push((i.wrapping_mul(31).wrapping_add(7) % 251) as u8);
    }
    out
}

const LENS: [usize; 22] = [
    0, 1, 3, 4, 8, 9, 16, 17, 32, 33, 64, 65, 96, 97, 128, 129, 240, 241, 256, 257, 1024, 1025,
];

#[test]
fn boundary_literals() {
    assert_eq!(xxh64(b"", 0), 0xEF46DB3751D8E999);
    assert_eq!(xxh32(b"", 0), 0x02CC5D05);
    assert_eq!(xxh3_64(b""), twox_hash::XxHash3_64::oneshot(b""));
    let d240 = corpus(240);
    let d241 = corpus(241);
    assert_eq!(xxh3_64(&d240), twox_hash::XxHash3_64::oneshot(&d240));
    assert_eq!(xxh3_64(&d241), twox_hash::XxHash3_64::oneshot(&d241));
    assert_eq!(
        xxh3_64_with_seed(&d240, 77),
        twox_hash::XxHash3_64::oneshot_with_seed(77, &d240)
    );
    assert_eq!(
        xxh3_64_with_seed(&d241, 77),
        twox_hash::XxHash3_64::oneshot_with_seed(77, &d241)
    );
    assert_eq!(xxh64(&d241, 9), twox_hash::XxHash64::oneshot(9, &d241));
    assert_eq!(xxh32(&d241, 9), twox_hash::XxHash32::oneshot(9, &d241));
}

#[test]
fn streaming_one_shot_equivalence_xxh32() {
    for &len in LENS.iter() {
        let data = corpus(len);
        let expected = xxh32(&data, 42);
        for &chunk in [1usize, 3, 7, 15, 16, 17, 64, 256].iter() {
            let mut h = Xxh32::new(42);
            for part in data.chunks(chunk) {
                h.update(part);
            }
            assert_eq!(h.digest(), expected, "len={} chunk={}", len, chunk);
        }
    }
}

#[test]
fn streaming_one_shot_equivalence_xxh64() {
    for &len in LENS.iter() {
        let data = corpus(len);
        let expected = xxh64(&data, 42);
        for &chunk in [1usize, 3, 7, 31, 32, 33, 64, 256].iter() {
            let mut h = Xxh64::new(42);
            for part in data.chunks(chunk) {
                h.update(part);
            }
            assert_eq!(h.digest(), expected, "len={} chunk={}", len, chunk);
        }
    }
}

#[test]
fn streaming_one_shot_equivalence_xxh3() {
    let lens: [usize; 12] = [0, 1, 63, 64, 240, 241, 255, 256, 257, 512, 1023, 2500];
    for &len in lens.iter() {
        let data = corpus(len);
        let expected = xxh3_64(&data);
        let expected_seeded = xxh3_64_with_seed(&data, 7);
        let expected128 = xxh3_128(&data);
        for &chunk in [1usize, 3, 63, 64, 65, 255, 256, 257, 1024].iter() {
            let mut h = Xxh3::new();
            let mut hs = Xxh3::with_seed(7);
            for part in data.chunks(chunk) {
                h.update(part);
                hs.update(part);
            }
            assert_eq!(h.digest(), expected, "len={} chunk={}", len, chunk);
            assert_eq!(h.digest128(), expected128, "len={} chunk={}", len, chunk);
            assert_eq!(hs.digest(), expected_seeded, "len={} chunk={}", len, chunk);
        }
    }
}

#[test]
fn seed_sensitivity() {
    for &len in LENS.iter() {
        let data = corpus(len);
        assert_ne!(xxh32(&data, 0), xxh32(&data, 1), "len={}", len);
        assert_ne!(xxh64(&data, 0), xxh64(&data, 1), "len={}", len);
        assert_ne!(
            xxh3_64_with_seed(&data, 0),
            xxh3_64_with_seed(&data, 1),
            "len={}",
            len
        );
        assert_ne!(
            xxh3_128_with_seed(&data, 0),
            xxh3_128_with_seed(&data, 1),
            "len={}",
            len
        );
    }
}

#[test]
fn digest_is_not_destructive() {
    let data = corpus(700);
    let mut h = Xxh3::new();
    h.update(&data[..300]);
    let first = h.digest();
    assert_eq!(first, h.digest());
    assert_eq!(first, xxh3_64(&data[..300]));
    h.update(&data[300..]);
    assert_eq!(h.digest(), xxh3_64(&data));
    assert_eq!(h.digest128(), xxh3_128(&data));

    let mut h32 = Xxh32::new(3);
    h32.update(&data[..100]);
    let first = h32.digest();
    assert_eq!(first, h32.digest());

    let mut h64 = Xxh64::new(3);
    h64.update(&data[..100]);
    let first = h64.digest();
    assert_eq!(first, h64.digest());
}

#[test]
fn reset_equivalence() {
    let a = corpus(300);
    let b = corpus(77);

    let mut h = Xxh3::with_seed(5);
    h.update(&a);
    h.update(&b);
    let d1 = h.digest();
    h.reset();
    h.update(&a);
    h.update(&b);
    assert_eq!(d1, h.digest());

    let mut h32 = Xxh32::new(5);
    h32.update(&a);
    h32.update(&b);
    let d1 = h32.digest();
    h32.reset(5);
    h32.update(&a);
    h32.update(&b);
    assert_eq!(d1, h32.digest());

    let mut h64 = Xxh64::new(5);
    h64.update(&a);
    h64.update(&b);
    let d1 = h64.digest();
    h64.reset(5);
    h64.update(&a);
    h64.update(&b);
    assert_eq!(d1, h64.digest());
}

#[test]
fn custom_secret_cross_check() {
    let secret = const_custom_default_secret(0xDEAD_BEEF);
    for &len in [0usize, 5, 20, 100, 200, 240, 241, 600].iter() {
        let data = corpus(len);
        assert_eq!(
            xxh3_64_with_secret(&data, &secret),
            twox_hash::XxHash3_64::oneshot_with_secret(&secret, &data).expect("secret size"),
            "len={}",
            len
        );
        assert_eq!(
            xxh3_128_with_secret(&data, &secret),
            twox_hash::XxHash3_128::oneshot_with_secret(&secret, &data).expect("secret size"),
            "len={}",
            len
        );
    }
}

#[test]
fn derived_secret_matches_seeded_long_inputs() {
    let seed = 0x1234_5678_9ABC_DEF0;
    let secret = const_custom_default_secret(seed);
    for &len in [241usize, 500, 1024, 2048].iter() {
        let data = corpus(len);
        assert_eq!(
            xxh3_64_with_secret(&data, &secret),
            xxh3_64_with_seed(&data, seed),
            "len={}",
            len
        );
        assert_eq!(
            xxh3_128_with_secret(&data, &secret),
            xxh3_128_with_seed(&data, seed),
            "len={}",
            len
        );
    }
}

#[test]
fn streaming_with_secret_matches_one_shot() {
    let secret = const_custom_default_secret(99);
    for &len in [0usize, 100, 240, 241, 700].iter() {
        let data = corpus(len);
        let mut h = Xxh3::with_secret(secret);
        for part in data.chunks(33) {
            h.update(part);
        }
        assert_eq!(h.digest(), xxh3_64_with_secret(&data, &secret), "len={}", len);
        assert_eq!(
            h.digest128(),
            xxh3_128_with_secret(&data, &secret),
            "len={}",
            len
        );
    }
}

#[test]
fn builders() {
    let data = corpus(100);
    let mut h = Xxh64Builder::new(11).build();
    h.update(&data);
    assert_eq!(h.digest(), xxh64(&data, 11));

    let mut h3 = Xxh3Builder::new().with_seed(12).build();
    h3.update(&data);
    assert_eq!(h3.digest(), xxh3_64_with_seed(&data, 12));

    let secret = const_custom_default_secret(13);
    let mut h3s = Xxh3Builder::new().with_secret(secret).build();
    h3s.update(&data);
    assert_eq!(h3s.digest(), xxh3_64_with_secret(&data, &secret));
}
