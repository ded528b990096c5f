use xmip_core_transport_mysql::sha1::{hex, sha1, DIGEST_LENGTH};

#[test]
fn the_fips_vectors_come_out() {
    assert_eq!(
        hex(&sha1(b"abc")),
        "a9993e364706816aba3e25717850c26c9cd0d89d"
    );
    assert_eq!(hex(&sha1(b"")), "da39a3ee5e6b4b0d3255bfef95601890afd80709");
    assert_eq!(
        hex(&sha1(
            b"abcdbcdecdefdefgefghfghighijhijkijkljklmklmnlmnomnopnopq"
        )),
        "84983e441c3bd26ebaae4aa1f95129e5e54670f1"
    );
    let million_a = vec![b'a'; 1_000_000];
    assert_eq!(
        hex(&sha1(&million_a)),
        "34aa973cd4c4daa4f61eeb2bdbad27316534016f"
    );
}

#[test]
fn a_message_that_ends_on_a_block_edge_still_pads() {
    let sixty_four = [b'x'; 64];
    let fifty_five = [b'x'; 55];
    assert_ne!(sha1(&sixty_four), sha1(&fifty_five));
    assert_eq!(sha1(&sixty_four).len(), DIGEST_LENGTH);
}
