use vstd::prelude::*;
use vstd::string::StringSliceAdditionalSpecFns;

verus! {

/// Lowercase hexadecimal digit of a value below sixteen.
pub open spec fn hex_digit(n: int) -> char {
    seq!['0', '1', '2', '3', '4', '5', '6', '7', '8', '9', 'a', 'b', 'c', 'd', 'e', 'f'][n]
}

/// Two lowercase hex digits per byte, high nibble first.
pub open spec fn hex_of(b: Seq<u8>) -> Seq<char>
    decreases b.len(),
{
    if b.len() == 0 {
        Seq::empty()
    } else {
        seq![hex_digit(b[0] as int / 16), hex_digit(b[0] as int % 16)] + hex_of(b.drop_first())
    }
}

pub proof fn lemma_hex_len(b: Seq<u8>)
    ensures
        hex_of(b).len() == 2 * b.len(),
    decreases b.len(),
{
    if b.len() > 0 {
        lemma_hex_len(b.drop_first());
    }
}

/// Number of bytes behind a client or connection id.
pub const ID_BYTES: usize = 12;

/// A well-formed id: the hex form of twelve bytes.
pub open spec fn is_id_of_bytes(s: Seq<char>) -> bool {
    exists|b: Seq<u8>| b.len() == ID_BYTES && s == #[trigger] hex_of(b)
}

pub uninterp spec fn sha256_of(data: Seq<u8>) -> Seq<u8>;

pub uninterp spec fn rfc3339_of(secs: i64) -> Seq<char>;

/// Relies on hex::encode: each byte becomes two lowercase hex digits, high nibble first.
#[verifier::external_body]
fn hex_encode(bytes: &[u8]) -> (r: String)
    ensures
        r@ == hex_of(bytes@),
{
    hex::encode(bytes)
}

/// Relies on sha2's Sha256::digest: the 32-byte SHA-256 digest of the input.
#[verifier::external_body]
fn sha256(data: &[u8]) -> (r: Vec<u8>)
    ensures
        r@ == sha256_of(data@),
        r@.len() == 32,
{
    <sha2::Sha256 as sha2::Digest>::digest(data).to_vec()
}

/// Relies on rand::random: one byte from the thread-local generator.
#[verifier::external_body]
fn random_byte() -> (r: u8) {
    rand::random::<u8>()
}

/// Relies on std::time::SystemTime: milliseconds since the Unix epoch, zero for
/// a clock set before it.
#[verifier::external_body]
fn system_millis() -> (r: u128) {
    std::time::SystemTime::now().duration_since(std::time::UNIX_EPOCH).map(|d| d.as_millis()).unwrap_or(0)
}

/// Relies on chrono's DateTime::<Utc>::from_timestamp and to_rfc3339: the UTC
/// date of `secs` seconds after the epoch in RFC 3339 form, empty where chrono
/// has no such date.
#[verifier::external_body]
fn rfc3339_from_secs(secs: i64) -> (r: String)
    ensures
        r@ == rfc3339_of(secs),
{
    chrono::DateTime::<chrono::Utc>::from_timestamp(secs, 0).map(|dt| dt.to_rfc3339()).unwrap_or_default()
}

/// The instant `ms` milliseconds after the epoch, whole seconds, in RFC 3339 form.
pub fn rfc3339_of_millis(ms: u64) -> (r: String)
    ensures
        r@ == rfc3339_of((ms / 1000) as i64),
{
    rfc3339_from_secs((ms / 1000) as i64)
}

fn append_bytes(v: &mut Vec<u8>, s: &str)
    ensures
        final(v)@ == old(v)@ + s.spec_bytes(),
{
    let b = s.as_bytes();
    let mut i: usize = 0;
    while i < b.len()
        invariant
            b@ == s.spec_bytes(),
            i <= b@.len(),
            v@ == old(v)@ + b@.take(i as int),
        decreases b@.len() - i,
    {
        v.push(b[i]);
        i = i + 1;
        assert(v@ =~= old(v)@ + b@.take(i as int));
    }
    assert(b@.take(b@.len() as int) =~= b@);
}

/// The id of a client that hashes its address: the first twelve bytes of
/// SHA-256 over `salt1 ++ ip ++ salt2`, in hex.
pub open spec fn hashed_id(ip: Seq<u8>, salt1: Seq<u8>, salt2: Seq<u8>) -> Seq<char> {
    hex_of(sha256_of(salt1 + ip + salt2).take(ID_BYTES as int))
}

/// Twelve random bytes, in hex.
pub fn generate_random_id() -> (r: String)
    ensures
        is_id_of_bytes(r@),
        r@.len() == 2 * ID_BYTES,
{
    let mut bytes: Vec<u8> = Vec::new();
    let mut i: usize = 0;
    while i < ID_BYTES
        invariant
            i <= ID_BYTES,
            bytes@.len() == i,
        decreases ID_BYTES - i,
    {
        bytes.push(random_byte());
        i = i + 1;
    }
    let r = hex_encode(bytes.as_slice());
    proof {
        lemma_hex_len(bytes@);
    }
    assert(r@ == hex_of(bytes@));
    r
}

/// The stable id of a client: hashed from its address when `production`, else random.
pub fn generate_client_id(ip: &str, production: bool, salt1: &str, salt2: &str) -> (r: String)
    ensures
        production ==> r@ == hashed_id(ip.spec_bytes(), salt1.spec_bytes(), salt2.spec_bytes()),
        !production ==> is_id_of_bytes(r@),
        r@.len() == 2 * ID_BYTES,
{
    if production {
        let mut salted: Vec<u8> = Vec::new();
        append_bytes(&mut salted, salt1);
        append_bytes(&mut salted, ip);
        append_bytes(&mut salted, salt2);
        assert(salted@ =~= salt1.spec_bytes() + ip.spec_bytes() + salt2.spec_bytes());
        let digest = sha256(salted.as_slice());
        let mut head: Vec<u8> = Vec::new();
        let mut i: usize = 0;
        while i < ID_BYTES
            invariant
                i <= ID_BYTES,
                digest@.len() == 32,
                head@ == digest@.take(i as int),
            decreases ID_BYTES - i,
        {
            head.push(digest[i]);
            i = i + 1;
            assert(head@ =~= digest@.take(i as int));
        }
        let r = hex_encode(head.as_slice());
        proof {
            lemma_hex_len(head@);
        }
        r
    } else {
        generate_random_id()
    }
}

/// Milliseconds since the Unix epoch, read from the system clock.
pub fn current_time_ms() -> u64 {
    let ms = system_millis();
    ms as u64
}

} // verus!
