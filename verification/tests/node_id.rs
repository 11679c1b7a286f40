use mainline_client::node_id::{derive_node_id, node_id};

// Test vectors described in BEP 42: for each IP and salt `r`, the first
// three bytes of the derived ID, with the low three bits of the third byte
// masked off.
fn check_vector(ip: [u8; 4], r: u8, crc: [u8; 3]) {
    assert!(r <= 7);
    // Drive the derivation through fresh random seeds until one carries the
    // wanted salt in its last byte; one in eight seeds does.
    loop {
        let mut id = node_id(&ip).unwrap();
        id[2] &= 0xf8;
        if (id[19] & 0x7) == r {
            assert_eq!(&id[0..3], crc);
            break;
        }
    }
}

#[test]
fn test_node_id() {
    check_vector([124, 31, 75, 21], 1, [0x5f, 0xbf, 0xb8]);
    check_vector([21, 75, 31, 124], 6, [0x5a, 0x3c, 0xe8]);
    check_vector([65, 23, 51, 170], 6, [0xa5, 0xd4, 0x30]);
    check_vector([84, 124, 73, 14], 1, [0x1b, 0x03, 0x20]);
    check_vector([43, 213, 53, 83], 2, [0xe5, 0x6f, 0x68]);
}

#[test]
fn test_derive_node_id_fixed_seed() {
    // a seed whose last byte carries the salt r = 1
    let mut seed = [0u8; 20];
    seed[19] = 0x09;
    let id = derive_node_id(&[124, 31, 75, 21], &seed);
    assert_eq!(id[0], 0x5f);
    assert_eq!(id[1], 0xbf);
    assert_eq!(id[2] & 0xf8, 0xb8);
    // the untouched bytes keep the seed's values
    assert_eq!(&id[3..20], &seed[3..20]);
    assert_eq!(id[19] & 0x07, 1);
}
