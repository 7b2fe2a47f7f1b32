use rust_blockchain::digest::canonical_json;
use rust_blockchain::digest::hasher;
use rust_blockchain::digest::hex_encode;
use rust_blockchain::digest::meets_difficulty;
use rust_blockchain::mining::find_hash;
use rust_blockchain::mining::find_hash_sync;
use rust_blockchain::mining::search_range;

#[test]
fn canonical_text_has_the_four_fields_in_order() {
    assert_eq!(
        canonical_json("prev_hash", "data", 1234545678, 0),
        "{\"prev_hash\":\"prev_hash\",\"data\":\"data\",\"timestamp\":1234545678,\"nonce\":0}"
    );
}

#[test]
fn canonical_text_escapes_strings_and_signs_numbers() {
    assert_eq!(
        canonical_json("a\"b", "line\nbreak\\", -5, 7),
        "{\"prev_hash\":\"a\\\"b\",\"data\":\"line\\nbreak\\\\\",\"timestamp\":-5,\"nonce\":7}"
    );
}

#[test]
fn hasher_gives_the_unpadded_hex_of_the_digest() {
    assert_eq!(
        hasher("prev_hash", "data", 1234545678, 0),
        "ADD7AD6B51519ADF2D9AD554BA834190E2B71E38AFCAC832B41761ABDAE75"
    );
    assert_eq!(
        hasher("abc", "hello", 1, 2),
        "425EF83F40BB9525E82D956FD0F34D642D58523F79EE428E82B565FA526"
    );
    assert_eq!(
        hasher("a\"b", "line\nbreak\\", -5, 7),
        "50EC9EC93BB861A3F75DF42BEA753EC2D8B22745661173BEA17D69764218FE0"
    );
}

#[test]
fn hasher_is_a_function_of_its_arguments() {
    let first = hasher("prev", "payload", 42, 9);
    let second = hasher("prev", "payload", 42, 9);
    assert_eq!(first, second);
    assert_ne!(first, hasher("prev", "payload", 42, 10));
}

#[test]
fn hex_has_no_zero_padding() {
    assert_eq!(hex_encode(&vec![0x0a, 0xab, 0x00, 0x10, 0xff, 0x0f]), "AAB010FFF");
    assert_eq!(hex_encode(&vec![]), "");
}

#[test]
fn difficulty_is_a_plain_prefix_match() {
    assert!(meets_difficulty("00AB", "00"));
    assert!(meets_difficulty("00AB", ""));
    assert!(meets_difficulty("00AB", "00AB"));
    assert!(!meets_difficulty("0AB", "00"));
    assert!(!meets_difficulty("0", "00"));
    assert!(!meets_difficulty("00ab", "00AB"));
}

#[test]
fn sync_search_returns_the_first_nonce_that_solves() {
    let (hash, nonce) = find_hash_sync("prev_hash", "data", 1234545678, "0").unwrap();
    assert_eq!(nonce, 504);
    assert_eq!(hash, "0D3E917A8A1E8A94254412C9EAE2EF27646B6E1C52A1C9C14526B252A73AB3");
}

#[test]
fn search_of_a_range_without_a_solution_finds_nothing() {
    assert!(search_range("prev_hash", "data", 1234545678, "0", 0, 504).is_none());
    assert!(search_range("prev_hash", "data", 1234545678, "0", 7, 7).is_none());
    let (_, nonce) = search_range("prev_hash", "data", 1234545678, "0", 500, 600).unwrap();
    assert_eq!(nonce, 504);
}

#[test]
fn empty_difficulty_is_met_by_the_first_nonce() {
    let (hash, nonce) = find_hash_sync("prev_hash", "data", 1234545678, "").unwrap();
    assert_eq!(nonce, 0);
    assert_eq!(hash, hasher("prev_hash", "data", 1234545678, 0));

    let (hash, nonce) = find_hash("prev_hash", "data", 1234545678, "", 1).unwrap();
    assert_eq!(nonce, 1);
    assert_eq!(hash, hasher("prev_hash", "data", 1234545678, 1));
}

#[test]
fn every_worker_count_returns_a_proof_of_work() {
    let cores = num_cpus::get().max(1);
    for workers in [1, 2, cores] {
        let (hash, nonce) = find_hash("prev_hash", "data", 1234545678, "0", workers).unwrap();
        assert!(nonce >= 1);
        assert!(hash.starts_with("0"));
        assert_eq!(hash, hasher("prev_hash", "data", 1234545678, nonce));
    }
}

#[test]
fn parallel_search_never_reports_nonce_zero() {
    // With prefix "A" nonce 0 solves, but the parallel search starts at 1.
    assert!(hasher("prev_hash", "data", 1234545678, 0).starts_with("A"));
    let (hash, nonce) = find_hash("prev_hash", "data", 1234545678, "A", 2).unwrap();
    assert!(nonce >= 1);
    assert!(hash.starts_with("A"));
    assert_eq!(hash, hasher("prev_hash", "data", 1234545678, nonce));
}

#[test]
fn the_extreme_integers_are_written_in_full() {
    assert_eq!(
        canonical_json("", "", i64::MIN, i64::MAX),
        "{\"prev_hash\":\"\",\"data\":\"\",\"timestamp\":-9223372036854775808,\"nonce\":9223372036854775807}"
    );
    assert_eq!(
        canonical_json("", "", 0, -1),
        "{\"prev_hash\":\"\",\"data\":\"\",\"timestamp\":0,\"nonce\":-1}"
    );
}

#[test]
fn text_beyond_ascii_is_hashed_as_utf8() {
    assert_eq!(
        canonical_json("gr\u{fc}n", "\u{1f600}\u{1}", 1, 1),
        "{\"prev_hash\":\"gr\u{fc}n\",\"data\":\"\u{1f600}\\u0001\",\"timestamp\":1,\"nonce\":1}"
    );
    assert_eq!(
        hasher("gr\u{fc}n", "\u{1f600}\u{1}", 1, 1),
        "97368DE06819053B585BFB6622DA6A36A5581553ECBDAAABF258F7178D17B2A"
    );
    assert!(meets_difficulty("\u{fc}bc", "\u{fc}b"));
    assert!(!meets_difficulty("\u{fc}bc", "\u{e4}b"));
}

#[test]
fn one_worker_returns_what_the_sequential_search_returns() {
    // Nonce 0 does not solve, so both searches stop at the same nonce.
    assert!(!hasher("prev_hash", "data", 1234545678, 0).starts_with("0"));
    let parallel = find_hash("prev_hash", "data", 1234545678, "0", 1).unwrap();
    let sequential = find_hash_sync("prev_hash", "data", 1234545678, "0").unwrap();
    assert_eq!(parallel, sequential);
    assert_eq!(parallel.1, 504);
}

#[test]
fn with_the_empty_difficulty_the_first_nonce_of_a_batch_is_returned() {
    let cores = num_cpus::get().max(1);
    for workers in [1, 2, 3, cores] {
        let (hash, nonce) = find_hash("prev_hash", "data", 1234545678, "", workers).unwrap();
        assert_eq!(nonce % 100, 1);
        assert!((nonce as usize) < 100 * workers);
        assert_eq!(hash, hasher("prev_hash", "data", 1234545678, nonce));
        assert_eq!(hash.len() >= 32 && hash.len() <= 64, true);
    }
}

#[test]
fn a_hash_has_one_or_two_characters_for_each_byte() {
    for nonce in 0..200 {
        let hash = hasher("prev_hash", "data", 1234545678, nonce);
        assert!(hash.len() >= 32 && hash.len() <= 64);
        assert!(hash.chars().all(|c| c.is_ascii_digit() || ('A'..='F').contains(&c)));
    }
}

#[test]
fn the_nonce_of_a_parallel_search_is_the_first_of_its_batch_to_solve() {
    let (hash, nonce) = find_hash("prev_hash", "data", 1234545678, "0", 3).unwrap();
    assert_eq!(hash, hasher("prev_hash", "data", 1234545678, nonce));
    let batch_start = nonce - (nonce - 1) % 100;
    assert!(search_range("prev_hash", "data", 1234545678, "0", batch_start, nonce).is_none());
}
