use code_intel::chunking::{chunk_file, recompute_chunk_id};
use code_intel::hashing::hex_encode;
use code_intel::ids::{chunk_id, compute_repo_id, edge_id, u32_dec};

#[test]
fn repo_id_is_hex_sha256_of_path() {
    assert_eq!(
        compute_repo_id("/tmp/repoA"),
        "d3b1e316f7bb007df2d2cb9581aa782207cfd33395d0d12a3e4ae3f95abb56f2"
    );
}

#[test]
fn chunk_id_hashes_colon_separated_key() {
    assert_eq!(
        chunk_id("r1", "src/a.rs", "", 1),
        "41d276773437062624da04990f253d7adf6a7e3078daa0a9d3d61ddc99dffc44"
    );
}

#[test]
fn edge_id_hashes_colon_separated_key() {
    assert_eq!(
        edge_id("r1", "src/a.rs", 3, "foo", "calls"),
        "e9af8242fcfc07975f820d1856195e57e653d67c984879be8d222b3a8091b2f0"
    );
}

#[test]
fn decimal_rendering_matches_standard_form() {
    assert_eq!(u32_dec(0), "0");
    assert_eq!(u32_dec(7), "7");
    assert_eq!(u32_dec(450), "450");
    assert_eq!(u32_dec(4294967295), "4294967295");
}

#[test]
fn hex_encoding_is_lowercase_two_digits_per_byte() {
    assert_eq!(hex_encode(&vec![0u8, 15, 16, 255]), "000f10ff");
    assert_eq!(hex_encode(&vec![]), "");
}

#[test]
fn chunk_ids_recompute_from_their_key() {
    let source = "fn a() {}\nfn b() {}\n";
    let chunks = chunk_file(source, "src/a.rs", "rust", "r1");
    assert_eq!(chunks.len(), 1);
    for c in &chunks {
        assert_eq!(recompute_chunk_id(c), c.id);
    }
}
