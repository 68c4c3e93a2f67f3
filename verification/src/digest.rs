//! SHA-256 digests, and the check that data has the digest it is stored under.

use crate::error::ProviderError;
use crate::layout::is_component;
use sha2::{Digest, Sha256};
use vstd::prelude::*;

verus! {

/// The SHA-256 hasher of the `sha2` crate.
#[verifier::external_type_specification]
#[verifier::external_body]
pub struct ExSha256(Sha256);

/// The bytes that a hasher has been given so far.
pub uninterp spec fn absorbed(hasher: Sha256) -> Seq<u8>;

/// The SHA-256 digest of `data`.
pub uninterp spec fn sha256(data: Seq<u8>) -> Seq<u8>;

/// The number of bytes that a hasher takes: it counts bits in 64 bits.
pub const MAX_HASHED: u64 = 0x1fff_ffff_ffff_ffff;

/// `sha2::Digest::new` for `Sha256`: a hasher that has been given nothing.
#[verifier::external_body]
fn sha256_new() -> (hasher: Sha256)
    ensures
        absorbed(hasher) == Seq::<u8>::empty(),
{
    Sha256::new()
}

/// `sha2::Digest::update` for `Sha256`: `data` joins what the hasher was given before. The
/// hasher's count of bits overflows beyond `MAX_HASHED` bytes.
#[verifier::external_body]
fn sha256_update(hasher: &mut Sha256, data: &[u8])
    requires
        absorbed(*old(hasher)).len() + data@.len() <= MAX_HASHED,
    ensures
        absorbed(*final(hasher)) == absorbed(*old(hasher)) + data@,
{
    hasher.update(data)
}

/// `sha2::Digest::finalize` for `Sha256`: the 32 bytes of the digest of what the hasher was
/// given.
#[verifier::external_body]
fn sha256_finalize(hasher: Sha256) -> (digest: Vec<u8>)
    ensures
        digest@ == sha256(absorbed(hasher)),
        digest@.len() == 32,
{
    hasher.finalize().to_vec()
}

/// The hexadecimal digits, in lower case.
pub const HEX_DIGITS: &'static str = "0123456789abcdef";

/// `bytes` in hexadecimal: two digits for each byte, the high one first, in lower case.
pub open spec fn spec_lower_hex(bytes: Seq<u8>) -> Seq<char> {
    Seq::new(
        2 * bytes.len(),
        |i: int|
            if i % 2 == 0 {
                HEX_DIGITS@[bytes[i / 2] as int / 16]
            } else {
                HEX_DIGITS@[bytes[i / 2] as int % 16]
            },
    )
}

/// `bytes` written in lower case hexadecimal.
pub fn lower_hex(bytes: &[u8]) -> (res: String)
    ensures
        res@ == spec_lower_hex(bytes@),
{
    let mut res = String::new();
    let mut i: usize = 0;
    while i < bytes.len()
        invariant
            i <= bytes@.len(),
            res@ == spec_lower_hex(bytes@.take(i as int)),
        decreases bytes@.len() - i,
    {
        let high: usize = (bytes[i] / 16) as usize;
        let low: usize = (bytes[i] % 16) as usize;
        proof {
            reveal_strlit("0123456789abcdef");
        }
        res.append(HEX_DIGITS.substring_ascii(high, high + 1));
        res.append(HEX_DIGITS.substring_ascii(low, low + 1));
        proof {
            assert(res@ =~= spec_lower_hex(bytes@.take(i + 1)));
        }
        i = i + 1;
    }
    assert(bytes@.take(bytes@.len() as int) =~= bytes@);
    res
}

/// Whether `digest`, written in lower case hexadecimal, is `sha`.
pub fn check_digest(digest: &[u8], sha: &str) -> (res: Result<(), ProviderError>)
    ensures
        match res {
            Ok(()) => spec_lower_hex(digest@) == sha@,
            Err(e) => e is DigestMismatch && spec_lower_hex(digest@) != sha@,
        },
{
    if lower_hex(digest) != sha.to_owned() {
        return Err(ProviderError::DigestMismatch);
    }
    Ok(())
}

/// A hasher that data is copied into as into a file. Its view is the data copied so far.
pub struct AsyncSha256 {
    inner: Sha256,
    count: u64,
}

impl View for AsyncSha256 {
    type V = Seq<u8>;

    closed spec fn view(&self) -> Seq<u8> {
        absorbed(self.inner)
    }
}

impl AsyncSha256 {
    /// The count of bytes is right, and the hasher can hold it.
    pub closed spec fn wf(&self) -> bool {
        self.count == self@.len() && self.count <= MAX_HASHED
    }

    /// A hasher that holds no data.
    pub fn new() -> (res: Self)
        ensures
            res.wf(),
            res@ == Seq::<u8>::empty(),
    {
        AsyncSha256 { inner: sha256_new(), count: 0 }
    }

    /// Whether `more` bytes can still be written.
    pub fn has_room(&self, more: usize) -> (res: bool)
        requires
            self.wf(),
        ensures
            res == (self@.len() + more <= MAX_HASHED),
    {
        more as u64 <= MAX_HASHED - self.count
    }

    /// Takes all of `buf`, and says how much that was.
    pub fn write(&mut self, buf: &[u8]) -> (written: usize)
        requires
            old(self).wf(),
            old(self)@.len() + buf@.len() <= MAX_HASHED,
        ensures
            final(self).wf(),
            final(self)@ == old(self)@ + buf@,
            written == buf@.len(),
    {
        let n: usize = buf.len();
        sha256_update(&mut self.inner, buf);
        self.count = self.count + n as u64;
        n
    }

    /// The digest of all the data written.
    pub fn finalize(self) -> (digest: Vec<u8>)
        ensures
            digest@ == sha256(self@),
            digest@.len() == 32,
    {
        sha256_finalize(self.inner)
    }
}

/// Whether the data copied into `hasher` has the digest `sha`, in lower case hexadecimal.
pub fn validate_sha256(hasher: AsyncSha256, sha: &str) -> (res: Result<(), ProviderError>)
    ensures
        match res {
            Ok(()) => spec_lower_hex(sha256(hasher@)) == sha@,
            Err(e) => e is DigestMismatch && spec_lower_hex(sha256(hasher@)) != sha@,
        },
{
    let digest = hasher.finalize();
    check_digest(digest.as_slice(), sha)
}

/// The digits are sixteen different ones, none of them a separator of paths.
proof fn lemma_digits()
    ensures
        HEX_DIGITS@.len() == 16,
        forall|x: int|
            0 <= x < 16 ==> #[trigger] HEX_DIGITS@[x] as int == (if x < 10 {
                48 + x
            } else {
                87 + x
            }),
{
    reveal_strlit("0123456789abcdef");
    let d = HEX_DIGITS@;
    assert(d[0] == '0' && d[1] == '1' && d[2] == '2' && d[3] == '3');
    assert(d[4] == '4' && d[5] == '5' && d[6] == '6' && d[7] == '7');
    assert(d[8] == '8' && d[9] == '9' && d[10] == 'a' && d[11] == 'b');
    assert(d[12] == 'c' && d[13] == 'd' && d[14] == 'e' && d[15] == 'f');
}

/// Different bytes are written differently.
pub proof fn hex_is_injective(a: Seq<u8>, b: Seq<u8>)
    requires
        spec_lower_hex(a) == spec_lower_hex(b),
    ensures
        a == b,
{
    lemma_digits();
    assert(spec_lower_hex(a).len() == 2 * a.len() && spec_lower_hex(b).len() == 2 * b.len());
    assert forall|i: int| 0 <= i < a.len() implies a[i] == b[i] by {
        let (x, y) = (a[i] as int, b[i] as int);
        assert((2 * i) / 2 == i && (2 * i + 1) / 2 == i && (2 * i) % 2 == 0 && (2 * i + 1) % 2
            == 1);
        assert(spec_lower_hex(a)[2 * i] == HEX_DIGITS@[x / 16]);
        assert(spec_lower_hex(b)[2 * i] == HEX_DIGITS@[y / 16]);
        assert(spec_lower_hex(a)[2 * i + 1] == HEX_DIGITS@[x % 16]);
        assert(spec_lower_hex(b)[2 * i + 1] == HEX_DIGITS@[y % 16]);
        assert(HEX_DIGITS@[x / 16] as int == HEX_DIGITS@[y / 16] as int);
        assert(HEX_DIGITS@[x % 16] as int == HEX_DIGITS@[y % 16] as int);
        assert(x / 16 == y / 16 && x % 16 == y % 16);
    }
    assert(a =~= b);
}

/// Bytes written in hexadecimal are one component of a path.
pub proof fn hex_is_component(bytes: Seq<u8>)
    requires
        bytes.len() > 0,
    ensures
        is_component(spec_lower_hex(bytes)),
{
    lemma_digits();
    let hex = spec_lower_hex(bytes);
    assert forall|i: int| 0 <= i < hex.len() implies hex[i] != '/' by {
        let x = bytes[i / 2] as int;
        assert(HEX_DIGITS@[x / 16] as int >= 48 && HEX_DIGITS@[x % 16] as int >= 48);
    }
}

} // verus!
