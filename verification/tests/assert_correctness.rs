#[allow(unused)]
const DATA: [&str; 35] = [
    "waifulandshigtgsqwetyuop[]asbnm,./",
    "waifulandshigtgsqwetyuop[]asbnm,.",
    "waifulandshigtgsqwetyuop[]asbnm,",
    "waifulandshigtgsqwetyuop[]asbnm",
    "waifulandshigtgsqwetyuop[]asbn",
    "waifulandshigtgsqwetyuop[]asb",
    "waifulandshigtgsqwetyuop[]as",
    "waifulandshigtgsqwetyuop[]a",
    "waifulandshigtgsqwetyuop[]",
    "waifulandshigtgsqwetyuop[",
    "waifulandshigtgsqwetyuop",
    "waifulandshigtgsqwetyuo",
    "waifulandshigtgsqwetyu",
    "waifulandshigtgsqwety",
    "waifulandshigtgsqwet",
    "waifulandshigtgsqwe",
    "waifulandshigtgsqw",
    "waifulandshigtgsq",
    "waifulandshigtgs",
    "waifulandshigtg",
    "waifulandshigt",
    "waifulandshig",
    "waifulandshi",
    "waifulandsh",
    "waifulands",
    "waifuland",
    "waifulan",
    "waifula",
    "waiful",
    "lolka",
    "lolk",
    "lol",
    "lo",
    "l",
    "",
];

#[test]
fn assert_xxh64() {
    const SEED_1: u64 = 0;
    const SEED_2: u64 = 1;

    let mut hasher_1 = xxhash_rust::xxh64::Xxh64::new(SEED_1);
    let mut hasher_2 = xxhash_rust::xxh64::Xxh64::new(SEED_2);

    for input in DATA.iter().rev() {
        println!("input(len={})='{}'", input.len(), input);
        let sys_result = twox_hash::XxHash64::oneshot(SEED_1, input.as_bytes());
        let result = xxhash_rust::xxh64::xxh64(input.as_bytes(), SEED_1);
        assert_eq!(result, sys_result);
        hasher_1.update(input.as_bytes());
        assert_eq!(hasher_1.digest(), result);

        let sys_result = twox_hash::XxHash64::oneshot(SEED_2, input.as_bytes());
        let result = xxhash_rust::xxh64::xxh64(input.as_bytes(), SEED_2);
        assert_eq!(result, sys_result);
        hasher_2.update(input.as_bytes());
        assert_eq!(hasher_2.digest(), result);

        hasher_1.reset(SEED_1);
        hasher_2.reset(SEED_2);
    }
}

#[test]
fn assert_xxh32() {
    const SEED_1: u32 = 0;
    const SEED_2: u32 = 1;

    let mut hasher_1 = xxhash_rust::xxh32::Xxh32::new(SEED_1);
    let mut hasher_2 = xxhash_rust::xxh32::Xxh32::new(SEED_2);

    for input in DATA.iter().rev() {
        println!("input(len={})='{}'", input.len(), input);
        let sys_result = twox_hash::XxHash32::oneshot(SEED_1, input.as_bytes());
        let result = xxhash_rust::xxh32::xxh32(input.as_bytes(), SEED_1);
        assert_eq!(result, sys_result);
        hasher_1.update(input.as_bytes());
        assert_eq!(hasher_1.digest(), result);

        let sys_result = twox_hash::XxHash32::oneshot(SEED_2, input.as_bytes());
        let result = xxhash_rust::xxh32::xxh32(input.as_bytes(), SEED_2);
        assert_eq!(result, sys_result);
        hasher_2.update(input.as_bytes());
        assert_eq!(hasher_2.digest(), result);

        hasher_1.reset(SEED_1);
        hasher_2.reset(SEED_2);
    }
}

#[test]
fn assert_const_xxh32() {
    const SEED_1: u32 = 0;
    const SEED_2: u32 = 1;

    for input in DATA.iter().rev() {
        println!("input(len={})='{}'", input.len(), input);
        let sys_result = twox_hash::XxHash32::oneshot(SEED_1, input.as_bytes());
        let result = xxhash_rust::const_xxh32::xxh32(input.as_bytes(), SEED_1);
        assert_eq!(result, sys_result);

        let sys_result = twox_hash::XxHash32::oneshot(SEED_2, input.as_bytes());
        let result = xxhash_rust::const_xxh32::xxh32(input.as_bytes(), SEED_2);
        assert_eq!(result, sys_result);
    }
}

#[test]
fn assert_const_xxh64() {
    const SEED_1: u64 = 0;
    const SEED_2: u64 = 1;

    for input in DATA.iter().rev() {
        println!("input(len={})='{}'", input.len(), input);
        let sys_result = twox_hash::XxHash64::oneshot(SEED_1, input.as_bytes());
        let result = xxhash_rust::const_xxh64::xxh64(input.as_bytes(), SEED_1);
        assert_eq!(result, sys_result);

        let sys_result = twox_hash::XxHash64::oneshot(SEED_2, input.as_bytes());
        let result = xxhash_rust::const_xxh64::xxh64(input.as_bytes(), SEED_2);
        assert_eq!(result, sys_result);
    }
}

#[test]
fn assert_const_xxh3() {
    let mut input = Vec::with_capacity(500);
    for num in 0..500 {
        input.resize(num, 1);
        getrandom::getrandom(&mut input).expect("getrandom");
        let input = input.as_slice();
        println!("input(len={})", input.len());

        let sys_result = twox_hash::XxHash3_64::oneshot(input);
        let result = xxhash_rust::const_xxh3::xxh3_64(input);
        assert_eq!(result, sys_result);

        let sys_result = twox_hash::XxHash3_64::oneshot_with_seed(1, input);
        let result = xxhash_rust::const_xxh3::xxh3_64_with_seed(input, 1);
        assert_eq!(result, sys_result);

        let sys_result128 = twox_hash::XxHash3_128::oneshot(input);
        let result128 = xxhash_rust::const_xxh3::xxh3_128(input);
        assert_eq!(result128 as u64, sys_result128 as u64);
        assert_eq!((result128 >> 64) as u64, (sys_result128 >> 64) as u64);

        let sys_result128 = twox_hash::XxHash3_128::oneshot_with_seed(1, input);
        let result128 = xxhash_rust::const_xxh3::xxh3_128_with_seed(input, 1);
        assert_eq!(result128 as u64, sys_result128 as u64);
        assert_eq!((result128 >> 64) as u64, (sys_result128 >> 64) as u64);
    }
}

#[test]
fn assert_xxh3() {
    let mut hasher_1 = xxhash_rust::xxh3::Xxh3::new();
    let mut hasher_2 = xxhash_rust::xxh3::Xxh3::with_seed(1);

    let mut input = Vec::with_capacity(500);
    for num in 0..500 {
        input.resize(num, 1);
        getrandom::getrandom(&mut input).expect("getrandom");
        let input = input.as_slice();
        println!("input(len={})", input.len());

        let sys_result = twox_hash::XxHash3_64::oneshot(input);
        let result = xxhash_rust::xxh3::xxh3_64(input);
        assert_eq!(result, sys_result);
        hasher_1.update(input);
        assert_eq!(hasher_1.digest(), result);

        let sys_result128 = twox_hash::XxHash3_128::oneshot(input);
        let result128 = xxhash_rust::xxh3::xxh3_128(input);
        assert_eq!(result128 as u64, sys_result128 as u64);
        assert_eq!((result128 >> 64) as u64, (sys_result128 >> 64) as u64);

        let sys_result = twox_hash::XxHash3_64::oneshot_with_seed(1, input);
        let result = xxhash_rust::xxh3::xxh3_64_with_seed(input, 1);
        assert_eq!(result, sys_result);
        hasher_2.update(input);
        assert_eq!(hasher_2.digest(), result);

        hasher_1.reset();
        hasher_2.reset();

        let sys_result128 = twox_hash::XxHash3_128::oneshot_with_seed(1, input);
        let result128 = xxhash_rust::xxh3::xxh3_128_with_seed(input, 1);
        assert_eq!(result128 as u64, sys_result128 as u64);
        assert_eq!((result128 >> 64) as u64, (sys_result128 >> 64) as u64);
    }
}
