//! Content hashes: SHA-256 of a file's bytes, written as lower-case hex.
use vstd::prelude::*;

verus! {

broadcast use vstd::string::group_string_axioms;

/// The lower-case hexadecimal digits, indexed by their value.
pub open spec fn hex_digits() -> Seq<char> {
    seq!['0', '1', '2', '3', '4', '5', '6', '7', '8', '9', 'a', 'b', 'c', 'd', 'e', 'f']
}

/// Each byte as two lower-case hex digits, high nibble first, in order.
pub open spec fn hex_lower(bytes: Seq<u8>) -> Seq<char>
    decreases bytes.len(),
{
    if bytes.len() == 0 {
        Seq::empty()
    } else {
        let b = bytes.last();
        hex_lower(bytes.drop_last()) + seq![hex_digits()[b as int / 16], hex_digits()[b as int % 16]]
    }
}

/// The hex text of a byte string has two characters per byte.
pub proof fn lemma_hex_lower_len(bytes: Seq<u8>)
    ensures
        hex_lower(bytes).len() == 2 * bytes.len(),
    decreases bytes.len(),
{
    if bytes.len() > 0 {
        lemma_hex_lower_len(bytes.drop_last());
    }
}

proof fn lemma_hex_digit_injective(x: int, y: int)
    requires
        0 <= x < 16,
        0 <= y < 16,
        hex_digits()[x] == hex_digits()[y],
    ensures
        x == y,
{
}

/// Two byte strings with the same hex text are equal: comparing hex texts
/// compares the bytes.
pub proof fn lemma_hex_lower_injective(a: Seq<u8>, b: Seq<u8>)
    requires
        hex_lower(a) == hex_lower(b),
    ensures
        a == b,
    decreases a.len(),
{
    lemma_hex_lower_len(a);
    lemma_hex_lower_len(b);
    if a.len() > 0 {
        let ha = hex_lower(a.drop_last());
        let hb = hex_lower(b.drop_last());
        lemma_hex_lower_len(a.drop_last());
        lemma_hex_lower_len(b.drop_last());
        let x = a.last();
        let y = b.last();
        let n = hex_lower(a).len();
        assert(hex_lower(a)[n - 2] == hex_digits()[x as int / 16]);
        assert(hex_lower(b)[n - 2] == hex_digits()[y as int / 16]);
        assert(hex_lower(a)[n - 1] == hex_digits()[x as int % 16]);
        assert(hex_lower(b)[n - 1] == hex_digits()[y as int % 16]);
        lemma_hex_digit_injective(x as int / 16, y as int / 16);
        lemma_hex_digit_injective(x as int % 16, y as int % 16);
        assert(x == y);
        assert(ha =~= hex_lower(a).subrange(0, n - 2));
        assert(hb =~= hex_lower(b).subrange(0, n - 2));
        lemma_hex_lower_injective(a.drop_last(), b.drop_last());
        assert(a =~= a.drop_last().push(x));
        assert(b =~= b.drop_last().push(y));
    }
}

/// `bytes` written as lower-case hex, as `format!("{:x}", ..)` writes a digest.
pub fn to_hex_lower(bytes: &[u8]) -> (r: String)
    ensures
        r@ == hex_lower(bytes@),
{
    let digits = "0123456789abcdef";
    proof {
        reveal_strlit("0123456789abcdef");
        assert(digits@ =~= hex_digits());
    }
    let mut r = String::new();
    let n = bytes.len();
    let mut i: usize = 0;
    while i < n
        invariant
            n == bytes@.len(),
            i <= n,
            digits@ == hex_digits(),
            r@ == hex_lower(bytes@.take(i as int)),
        decreases n - i,
    {
        let b = bytes[i];
        let hi = (b / 16) as usize;
        let lo = (b % 16) as usize;
        r.append(digits.substring_char(hi, hi + 1));
        r.append(digits.substring_char(lo, lo + 1));
        proof {
            assert(bytes@.take(i + 1).drop_last() =~= bytes@.take(i as int));
            assert(digits@.subrange(hi as int, hi + 1) =~= seq![hex_digits()[b as int / 16]]);
            assert(digits@.subrange(lo as int, lo + 1) =~= seq![hex_digits()[b as int % 16]]);
            assert(r@ =~= hex_lower(bytes@.take(i + 1)));
        }
        i = i + 1;
    }
    assert(bytes@.take(n as int) =~= bytes@);
    r
}

/// A SHA-256 computation in progress, holding a `sha2::Sha256`. That type is an
/// alias of a generic wrapper type, so the hasher is kept in a private field.
#[verifier::external_body]
pub struct ContentHasher {
    inner: sha2::Sha256,
}

/// The bytes fed to a SHA-256 computation so far.
pub uninterp spec fn hashed_bytes(h: ContentHasher) -> Seq<u8>;

/// The SHA-256 digest of `data`.
pub uninterp spec fn sha256(data: Seq<u8>) -> Seq<u8>;

/// `sha2::Sha256::new` (through `Digest::new`): a computation that has
/// absorbed nothing.
#[verifier::external_body]
fn sha256_start() -> (h: ContentHasher)
    ensures
        hashed_bytes(h) == Seq::<u8>::empty(),
{
    ContentHasher { inner: <sha2::Sha256 as sha2::Digest>::new() }
}

/// `Digest::update` on `sha2::Sha256`: the computation goes on as if `data`
/// had been appended to everything fed before.
#[verifier::external_body]
fn sha256_absorb(h: &mut ContentHasher, data: &[u8])
    ensures
        hashed_bytes(*final(h)) == hashed_bytes(*old(h)) + data@,
{
    sha2::Digest::update(&mut h.inner, data)
}

/// `Digest::finalize` on `sha2::Sha256`: the 32-byte digest of all the bytes
/// fed, as a `Vec`.
#[verifier::external_body]
fn sha256_finish(h: ContentHasher) -> (d: Vec<u8>)
    ensures
        d@ == sha256(hashed_bytes(h)),
        d@.len() == 32,
{
    sha2::Digest::finalize(h.inner).to_vec()
}

impl ContentHasher {
    /// The bytes fed so far.
    pub open spec fn fed(self) -> Seq<u8> {
        hashed_bytes(self)
    }

    /// A hash computation that has been fed nothing.
    pub fn new() -> (h: ContentHasher)
        ensures
            h.fed() == Seq::<u8>::empty(),
    {
        sha256_start()
    }

    /// Feeds the next chunk of a file's contents.
    pub fn update(&mut self, chunk: &[u8])
        ensures
            final(self).fed() == old(self).fed() + chunk@,
    {
        sha256_absorb(self, chunk)
    }

    /// The SHA-256 of everything fed, as 64 lower-case hex digits.
    pub fn finish(self) -> (hex: String)
        ensures
            hex@ == hex_lower(sha256(self.fed())),
            hex@.len() == 64,
    {
        let ghost fed = self.fed();
        let d = sha256_finish(self);
        proof {
            lemma_hex_lower_len(d@);
        }
        to_hex_lower(d.as_slice())
    }
}

/// The hash text of `data`, computed in one step.
pub fn content_hash(data: &[u8]) -> (hex: String)
    ensures
        hex@ == hex_lower(sha256(data@)),
        hex@.len() == 64,
{
    let mut h = ContentHasher::new();
    h.update(data);
    proof {
        assert(Seq::<u8>::empty() + data@ =~= data@);
    }
    h.finish()
}

} // verus!
