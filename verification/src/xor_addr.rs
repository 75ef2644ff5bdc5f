use crate::error::Error;
use crate::message::{spec_be16, spec_u16_be, MAGIC_COOKIE, TRANSACTION_ID_SIZE};
use vstd::prelude::*;

verus! {

/// The address family code of an IPv4 mapped address.
pub const FAMILY_IPV4: u8 = 0x01;

/// The wire value of an XOR-mapped-address attribute carrying an IPv4
/// address: a zero byte, the family code, the port XORed with the top half
/// of the magic cookie, then the four address bytes XORed with the cookie
/// bytes.
pub open spec fn spec_xor_mapped_value(ip: Seq<u8>, port: u16) -> Seq<u8> {
    seq![0u8, 1u8] + spec_u16_be(port ^ 0x2112) + seq![
        (ip[0] ^ 0x21) as u8,
        (ip[1] ^ 0x12) as u8,
        (ip[2] ^ 0xA4) as u8,
        (ip[3] ^ 0x42) as u8,
    ]
}

/// The port an XOR-mapped-address value declares, once unmasked.
pub open spec fn spec_recovered_port(v: Seq<u8>) -> u16 {
    spec_be16(v[2], v[3]) ^ 0x2112
}

/// The four IPv4 address bytes an XOR-mapped-address value declares, once
/// unmasked with the cookie bytes.
pub open spec fn spec_recovered_ip(v: Seq<u8>) -> Seq<u8> {
    seq![(v[4] ^ 0x21) as u8, (v[5] ^ 0x12) as u8, (v[6] ^ 0xA4) as u8, (v[7] ^ 0x42) as u8]
}

/// Recovery undoes obfuscation: the attribute value built for any four
/// address bytes and any port declares back exactly that address and
/// port, and carries the IPv4 family code.
pub proof fn lemma_xor_address_recovery(ip: Seq<u8>, port: u16)
    requires
        ip.len() == 4,
    ensures
        spec_recovered_port(spec_xor_mapped_value(ip, port)) == port,
        spec_recovered_ip(spec_xor_mapped_value(ip, port)) == ip,
        spec_xor_mapped_value(ip, port).len() == 8,
        spec_xor_mapped_value(ip, port)[1] == 1,
{
    let v = spec_xor_mapped_value(ip, port);
    crate::message::lemma_be16_of_u16_be(port ^ 0x2112);
    assert(forall|x: u16| #[trigger] ((x ^ 0x2112) ^ 0x2112) == x) by (bit_vector);
    assert(forall|x: u8, k: u8| #[trigger] ((x ^ k) ^ k) == x) by (bit_vector);
    assert(spec_recovered_ip(v) =~= ip);
}

/// XOR each byte of `a` with the matching byte of `b` into `dst`, stopping
/// at the shortest of the three buffers; bytes of `dst` past that point are
/// left as they were.
pub fn safe_xorbytes(dst: &mut Vec<u8>, a: &Vec<u8>, b: &Vec<u8>)
    ensures
        final(dst)@.len() == old(dst)@.len(),
        forall|i: int|
            0 <= i < old(dst)@.len() ==> final(dst)@[i] == (if i < a@.len() && i < b@.len() {
                a@[i] ^ b@[i]
            } else {
                old(dst)@[i]
            }),
{
    let mut n: usize = a.len();
    if b.len() < n {
        n = b.len();
    }
    if dst.len() < n {
        n = dst.len();
    }
    let mut i: usize = 0;
    while i < n
        invariant
            n <= a@.len(),
            n <= b@.len(),
            n <= dst@.len(),
            i <= n,
            dst@.len() == old(dst)@.len(),
            forall|j: int| 0 <= j < i ==> dst@[j] == a@[j] ^ b@[j],
            forall|j: int| i <= j < dst@.len() ==> dst@[j] == old(dst)@[j],
        decreases n - i,
    {
        let x = a[i] ^ b[i];
        dst.set(i, x);
        i = i + 1;
    }
}

/// The client-visible transport address recovered from an
/// XOR-mapped-address attribute: family code, IPv4 address bytes and
/// port, all unmasked.
#[derive(Clone, Copy, Debug)]
pub struct XorMappedAddress {
    pub family: u8,
    pub ip: [u8; 4],
    pub port: u16,
}

impl XorMappedAddress {
    /// Recover the transport address hidden in the value bytes of an
    /// XOR-mapped-address attribute: the family byte sits at offset 1,
    /// the masked port at offsets 2-3, the masked address from offset 4.
    /// The XOR mask is the magic cookie followed by the transaction id,
    /// of which an IPv4 address consumes the cookie bytes alone.  A value
    /// too short for the IPv4 family, or of any other family, is refused
    /// as malformed.
    pub fn new(attributes_payload: Vec<u8>, transaction_id: [u8; TRANSACTION_ID_SIZE]) -> (r:
        Result<XorMappedAddress, Error>)
        ensures
            r is Ok <==> (attributes_payload@.len() >= 8 && attributes_payload@[1] == 1),
            r is Ok ==> r->Ok_0.family == 1,
            r is Ok ==> r->Ok_0.port == spec_recovered_port(attributes_payload@),
            r is Ok ==> r->Ok_0.ip@ == spec_recovered_ip(attributes_payload@),
            r is Err ==> r->Err_0 == Error::MalformedAttribute,
    {
        if attributes_payload.len() < 8 {
            return Err(Error::MalformedAttribute);
        }
        let family = attributes_payload[1];
        if family != FAMILY_IPV4 {
            return Err(Error::MalformedAttribute);
        }
        assert(MAGIC_COOKIE >> 16 == 0x2112u32) by (bit_vector);
        let port = ((attributes_payload[2] as u16) * 256 + (attributes_payload[3] as u16)) ^ ((
        MAGIC_COOKIE >> 16) as u16);
        let mut xor_value: Vec<u8> = Vec::new();
        xor_value.push(0x21);
        xor_value.push(0x12);
        xor_value.push(0xA4);
        xor_value.push(0x42);
        let mut i: usize = 0;
        while i < TRANSACTION_ID_SIZE
            invariant
                i <= 12,
                xor_value@.len() == 4 + i,
                xor_value@[0] == 0x21u8,
                xor_value@[1] == 0x12u8,
                xor_value@[2] == 0xA4u8,
                xor_value@[3] == 0x42u8,
            decreases 12 - i,
        {
            xor_value.push(transaction_id[i]);
            i = i + 1;
        }
        let mut address_bytes: Vec<u8> = Vec::new();
        let mut k: usize = 4;
        while k < attributes_payload.len()
            invariant
                4 <= k <= attributes_payload@.len(),
                8 <= attributes_payload@.len(),
                address_bytes@ =~= attributes_payload@.subrange(4, k as int),
            decreases attributes_payload@.len() - k,
        {
            address_bytes.push(attributes_payload[k]);
            k = k + 1;
        }
        let mut ip_bytes: Vec<u8> = Vec::new();
        ip_bytes.push(0);
        ip_bytes.push(0);
        ip_bytes.push(0);
        ip_bytes.push(0);
        safe_xorbytes(&mut ip_bytes, &address_bytes, &xor_value);
        let ip = [ip_bytes[0], ip_bytes[1], ip_bytes[2], ip_bytes[3]];
        assert(ip@ =~= spec_recovered_ip(attributes_payload@));
        Ok(XorMappedAddress { family, ip, port })
    }
}

} // verus!
