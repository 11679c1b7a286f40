//! BEP 42 node-ID derivation: the first bytes of a DHT node's identifier
//! commit to a checksum of its masked IP address, so that an ID can be
//! checked against the address it came from.

use vstd::prelude::*;

verus! {

/// The checksum that the crc32c crate computes (a CRC-32 over the
/// Castagnoli polynomial). Its value depends on the input bytes alone, so it
/// carries a name here rather than a restatement of the algorithm.
pub uninterp spec fn crc32c_of(data: Seq<u8>) -> u32;

/// Relies on crc32c::crc32c: the Castagnoli CRC of the data, a function of
/// the bytes alone.
#[verifier::external_body]
fn crc32c_sum(data: &[u8]) -> (r: u32)
    ensures
        r == crc32c_of(data@),
{
    crc32c::crc32c(data)
}

/// Relies on getrandom::getrandom: fills a buffer from the operating
/// system's entropy source, or reports that source's failure. Nothing is
/// promised of the bytes.
#[verifier::external_body]
fn rand_buff<const N: usize>() -> (r: Option<[u8; N]>)
    ensures
        r matches Some(b) ==> b@.len() == N,
{
    let mut buf = [0u8; N];
    match getrandom::getrandom(&mut buf) {
        Ok(()) => Some(buf),
        Err(_) => None,
    }
}

/// The masked IP whose checksum the ID commits to: only the low 2, 4, 6 and
/// 8 bits of the four octets are kept, and the random `r` fills the top
/// three bits of the first.
pub open spec fn spec_masked_ip(ip: Seq<u8>, r: u8) -> Seq<u8>
    recommends
        ip.len() == 4,
        r < 8,
{
    seq![(ip[0] & 0x03) | (r << 5), ip[1] & 0x0f, ip[2] & 0x3f, ip[3] & 0xff]
}

/// Masks `ip` and plants `r` as the checksum's salt.
pub fn masked_ip(ip: &[u8; 4], r: u8) -> (out: [u8; 4])
    requires
        r < 8,
    ensures
        out@ == spec_masked_ip(ip@, r),
{
    let out = [(ip[0] & 0x03) | (r << 5u32), ip[1] & 0x0f, ip[2] & 0x3f, ip[3] & 0xff];
    proof {
        assert(out@ =~= spec_masked_ip(ip@, r));
    }
    out
}

/// The identifier assembled from checksum and seed: the first two bytes and
/// the top five bits of the third carry the checksum; everything else,
/// including the salt in the last byte's low three bits, stays random.
pub open spec fn spec_node_id_from_crc(crc: u32, seed: Seq<u8>) -> Seq<u8>
    recommends
        seed.len() == 20,
{
    seed.update(0, ((crc >> 24) & 0xff) as u8).update(1, ((crc >> 16) & 0xff) as u8).update(
        2,
        (((crc >> 8) & 0xf8) as u8) | (seed[2] & 0x07),
    )
}

/// Overwrites the leading bytes of `seed` with the checksum.
pub fn node_id_from_crc(crc: u32, seed: &[u8; 20]) -> (out: [u8; 20])
    ensures
        out@ == spec_node_id_from_crc(crc, seed@),
{
    let mut out = *seed;
    out[0] = ((crc >> 24u32) & 0xff) as u8;
    out[1] = ((crc >> 16u32) & 0xff) as u8;
    out[2] = (((crc >> 8u32) & 0xf8) as u8) | (out[2] & 0x07);
    proof {
        assert(out@ =~= spec_node_id_from_crc(crc, seed@));
    }
    out
}

/// The BEP 42 identifier derived from an IP and a 20-byte random seed: the
/// salt `r` is the low three bits of the seed's last byte, and the checksum
/// of the masked IP fills the identifier's first bytes.
pub open spec fn spec_node_id(ip: Seq<u8>, seed: Seq<u8>) -> Seq<u8>
    recommends
        ip.len() == 4,
        seed.len() == 20,
{
    spec_node_id_from_crc(crc32c_of(spec_masked_ip(ip, seed[19] & 0x07)), seed)
}

/// Derives the node ID for `ip` from the given random seed.
pub fn derive_node_id(ip: &[u8; 4], seed: &[u8; 20]) -> (out: [u8; 20])
    ensures
        out@ == spec_node_id(ip@, seed@),
{
    let s19 = seed[19];
    let r = s19 & 0x07;
    proof {
        assert(s19 & 0x07 < 8) by (bit_vector);
    }
    let masked = masked_ip(ip, r);
    let crc = crc32c_sum(&masked[0..4]);
    proof {
        assert(masked@.subrange(0, 4) =~= masked@);
    }
    node_id_from_crc(crc, seed)
}

/// Derives a node ID for `ip` from fresh random bytes. It fails only when
/// the entropy source does; whatever seed came back, the result is the
/// derivation applied to it.
pub fn node_id(ip: &[u8; 4]) -> (r: Option<[u8; 20]>)
    ensures
        r matches Some(id) ==> exists|seed: Seq<u8>|
            seed.len() == 20 && id@ == #[trigger] spec_node_id(ip@, seed),
{
    match rand_buff::<20>() {
        Some(seed) => {
            let id = derive_node_id(ip, &seed);
            proof {
                assert(seed@.len() == 20 && id@ == spec_node_id(ip@, seed@));
            }
            Some(id)
        },
        None => None,
    }
}

} // verus!
