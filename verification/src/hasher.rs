//! Block-wise SHA-1 hashing and the uppercase hex rendering of digests.
//!
//! The digest computation itself comes from the `sha1` crate; everything
//! around it — block splitting, hex encoding, algorithm dispatch — is
//! verified here.

use vstd::prelude::*;
use vstd::slice::slice_subrange;
use vstd::string::*;
use crate::ChecksumError;

verus! {

/// The 20-byte SHA-1 digest of a byte stream. The algorithm itself is not
/// restated here; the trusted wrappers below tie this name to the `sha1`
/// crate's computation.
pub uninterp spec fn sha1_of(data: Seq<u8>) -> Seq<u8>;

#[verifier::external_type_specification]
#[verifier::external_body]
pub struct ExSha1(sha1::Sha1);

/// Default block granularity for feeding file contents to a digest: 128 KiB.
pub const BLOCK_SIZE: usize = 128 * 1024;

/// Relies on sha1::Sha1::new: a fresh digest state; the hasher below pairs
/// it with an empty absorbed stream.
#[verifier::external_body]
fn sha1_new() -> (s: sha1::Sha1) {
    sha1::Sha1::new()
}

/// An incremental SHA-1 state together with the stream fed to it so far.
pub struct Sha1Hasher {
    inner: sha1::Sha1,
    fed: Ghost<Seq<u8>>,
}

impl Sha1Hasher {
    /// The byte stream this state has absorbed.
    pub closed spec fn fed(&self) -> Seq<u8> {
        self.fed@
    }

    /// A fresh state that has absorbed nothing.
    pub fn new() -> (h: Self)
        ensures
            h.fed() == Seq::<u8>::empty(),
    {
        Sha1Hasher { inner: sha1_new(), fed: Ghost(Seq::empty()) }
    }

    /// Relies on sha1::Sha1::update: appends the block to the absorbed
    /// stream, so that feeding a stream in pieces equals feeding it whole.
    #[verifier::external_body]
    pub fn update(&mut self, block: &[u8])
        ensures
            final(self).fed() == old(self).fed() + block@,
    {
        self.inner.update(block);
    }

    /// Relies on sha1::Sha1::digest and sha1::Digest::bytes: the 20-byte
    /// digest of the absorbed stream, a function of that stream alone.
    #[verifier::external_body]
    pub fn digest_bytes(&self) -> (r: Vec<u8>)
        ensures
            r@ == sha1_of(self.fed()),
            r@.len() == 20,
    {
        self.inner.digest().bytes().to_vec()
    }
}

/// The uppercase hex character for a value below 16.
pub open spec fn hex_upper_digit(n: u8) -> char {
    if n == 0 {
        '0'
    } else if n == 1 {
        '1'
    } else if n == 2 {
        '2'
    } else if n == 3 {
        '3'
    } else if n == 4 {
        '4'
    } else if n == 5 {
        '5'
    } else if n == 6 {
        '6'
    } else if n == 7 {
        '7'
    } else if n == 8 {
        '8'
    } else if n == 9 {
        '9'
    } else if n == 10 {
        'A'
    } else if n == 11 {
        'B'
    } else if n == 12 {
        'C'
    } else if n == 13 {
        'D'
    } else if n == 14 {
        'E'
    } else {
        'F'
    }
}

/// Uppercase hex rendering of a byte sequence: two digits per byte, high
/// nibble first.
pub open spec fn hex_upper_of(data: Seq<u8>) -> Seq<char>
    decreases data.len(),
{
    if data.len() == 0 {
        Seq::empty()
    } else {
        seq![
            hex_upper_digit(data.first() >> 4),
            hex_upper_digit(data.first() & 0x0f),
        ] + hex_upper_of(data.drop_first())
    }
}

/// Hex rendering is two characters per byte.
pub proof fn lemma_hex_upper_len(data: Seq<u8>)
    ensures
        hex_upper_of(data).len() == 2 * data.len(),
    decreases data.len(),
{
    if data.len() > 0 {
        lemma_hex_upper_len(data.drop_first());
    }
}

proof fn lemma_hex_upper_push(data: Seq<u8>, b: u8)
    ensures
        hex_upper_of(data.push(b)) == hex_upper_of(data) + seq![
            hex_upper_digit(b >> 4),
            hex_upper_digit(b & 0x0f),
        ],
    decreases data.len(),
{
    if data.len() == 0 {
        let digits = seq![hex_upper_digit(b >> 4), hex_upper_digit(b & 0x0f)];
        assert(data.push(b).len() == 1);
        assert(data.push(b).first() == b);
        assert(data.push(b).drop_first() =~= Seq::<u8>::empty());
        assert(hex_upper_of(Seq::<u8>::empty()) == Seq::<char>::empty());
        assert(hex_upper_of(data.push(b)) == digits + hex_upper_of(data.push(b).drop_first()));
        assert(hex_upper_of(data.push(b)) =~= digits);
        assert(data =~= Seq::<u8>::empty());
        assert(hex_upper_of(data) + digits =~= digits);
    } else {
        let digits = seq![hex_upper_digit(b >> 4), hex_upper_digit(b & 0x0f)];
        let first_digits = seq![
            hex_upper_digit(data.first() >> 4),
            hex_upper_digit(data.first() & 0x0f),
        ];
        assert(data.push(b).first() == data.first());
        assert(data.push(b).drop_first() =~= data.drop_first().push(b));
        lemma_hex_upper_push(data.drop_first(), b);
        assert(hex_upper_of(data.push(b)) == first_digits + (hex_upper_of(data.drop_first())
            + digits));
        assert(first_digits + (hex_upper_of(data.drop_first()) + digits) =~= (first_digits
            + hex_upper_of(data.drop_first())) + digits);
    }
}

fn hex_digit_str(n: u8) -> (r: &'static str)
    requires
        n < 16,
    ensures
        r@ == seq![hex_upper_digit(n)],
{
    if n == 0 {
        proof { reveal_strlit("0"); }
        assert("0"@ =~= seq![hex_upper_digit(n)]);
        "0"
    } else if n == 1 {
        proof { reveal_strlit("1"); }
        assert("1"@ =~= seq![hex_upper_digit(n)]);
        "1"
    } else if n == 2 {
        proof { reveal_strlit("2"); }
        assert("2"@ =~= seq![hex_upper_digit(n)]);
        "2"
    } else if n == 3 {
        proof { reveal_strlit("3"); }
        assert("3"@ =~= seq![hex_upper_digit(n)]);
        "3"
    } else if n == 4 {
        proof { reveal_strlit("4"); }
        assert("4"@ =~= seq![hex_upper_digit(n)]);
        "4"
    } else if n == 5 {
        proof { reveal_strlit("5"); }
        assert("5"@ =~= seq![hex_upper_digit(n)]);
        "5"
    } else if n == 6 {
        proof { reveal_strlit("6"); }
        assert("6"@ =~= seq![hex_upper_digit(n)]);
        "6"
    } else if n == 7 {
        proof { reveal_strlit("7"); }
        assert("7"@ =~= seq![hex_upper_digit(n)]);
        "7"
    } else if n == 8 {
        proof { reveal_strlit("8"); }
        assert("8"@ =~= seq![hex_upper_digit(n)]);
        "8"
    } else if n == 9 {
        proof { reveal_strlit("9"); }
        assert("9"@ =~= seq![hex_upper_digit(n)]);
        "9"
    } else if n == 10 {
        proof { reveal_strlit("A"); }
        assert("A"@ =~= seq![hex_upper_digit(n)]);
        "A"
    } else if n == 11 {
        proof { reveal_strlit("B"); }
        assert("B"@ =~= seq![hex_upper_digit(n)]);
        "B"
    } else if n == 12 {
        proof { reveal_strlit("C"); }
        assert("C"@ =~= seq![hex_upper_digit(n)]);
        "C"
    } else if n == 13 {
        proof { reveal_strlit("D"); }
        assert("D"@ =~= seq![hex_upper_digit(n)]);
        "D"
    } else if n == 14 {
        proof { reveal_strlit("E"); }
        assert("E"@ =~= seq![hex_upper_digit(n)]);
        "E"
    } else {
        proof { reveal_strlit("F"); }
        assert("F"@ =~= seq![hex_upper_digit(n)]);
        "F"
    }
}

/// Render a byte sequence as uppercase hex, two digits per byte.
pub fn hex_upper(data: &Vec<u8>) -> (r: String)
    ensures
        r@ == hex_upper_of(data@),
        r@.len() == 2 * data@.len(),
{
    let mut r = String::new();
    let n = data.len();
    let mut i: usize = 0;
    while i < n
        invariant
            n == data@.len(),
            i <= n,
            r@ == hex_upper_of(data@.take(i as int)),
            r@.len() == 2 * i,
        decreases n - i,
    {
        let b = data[i];
        let hi = b >> 4;
        let lo = b & 0x0f;
        proof {
            assert(b >> 4 < 16 && b & 0x0f < 16) by (bit_vector);
        }
        r.append(hex_digit_str(hi));
        r.append(hex_digit_str(lo));
        proof {
            assert(data@.take(i + 1) =~= data@.take(i as int).push(data@[i as int]));
            lemma_hex_upper_push(data@.take(i as int), data@[i as int]);
            lemma_hex_upper_len(data@.take(i + 1));
        }
        i = i + 1;
    }
    proof {
        assert(data@.take(n as int) =~= data@);
    }
    r
}

/// Digest a byte stream with SHA-1, feeding it in blocks of `block_size`
/// bytes (`0` means the whole stream at once), and render the digest as
/// uppercase hex. Feeding block-wise yields the digest of the whole stream.
pub fn sha1_hex_upper(data: &Vec<u8>, block_size: usize) -> (r: String)
    ensures
        r@ == hex_upper_of(sha1_of(data@)),
        r@.len() == 40,
{
    let mut h = Sha1Hasher::new();
    if block_size == 0 {
        h.update(data.as_slice());
        proof {
            assert(h.fed() =~= data@);
        }
    } else {
        let n = data.len();
        let mut i: usize = 0;
        while i < n
            invariant
                n == data@.len(),
                i <= n,
                block_size > 0,
                h.fed() == data@.take(i as int),
            decreases n - i,
        {
            let end = if n - i < block_size {
                n
            } else {
                i + block_size
            };
            let block = slice_subrange(data.as_slice(), i, end);
            h.update(block);
            proof {
                assert(data@.take(i as int) + data@.subrange(i as int, end as int) =~= data@.take(
                    end as int,
                ));
            }
            i = end;
        }
        proof {
            assert(data@.take(n as int) =~= data@);
        }
    }
    let digest = h.digest_bytes();
    let r = hex_upper(&digest);
    proof {
        lemma_hex_upper_len(digest@);
    }
    r
}

/// The one dispatch point over digest algorithms. `"sha1"` is the algorithm
/// implemented; any other name is rejected as unknown.
pub fn hash_bytes(algorithm: &str, data: &Vec<u8>, block_size: usize) -> (r: Result<
    String,
    ChecksumError,
>)
    ensures
        match r {
            Ok(s) => algorithm@ == "sha1"@ && s@ == hex_upper_of(sha1_of(data@)) && s@.len() == 40,
            Err(e) => algorithm@ != "sha1"@ && e == ChecksumError::UnknownAlgorithm,
        },
{
    let a = algorithm.to_owned();
    let tag: String = "sha1".to_owned();
    if a == tag {
        Ok(sha1_hex_upper(data, block_size))
    } else {
        Err(ChecksumError::UnknownAlgorithm)
    }
}

/// Hash determinism: the digest, and hence its hex rendering, depends on
/// the byte stream alone — equal streams give equal digests.
pub proof fn lemma_digest_deterministic(a: Seq<u8>, b: Seq<u8>)
    requires
        a == b,
    ensures
        sha1_of(a) == sha1_of(b),
        hex_upper_of(sha1_of(a)) == hex_upper_of(sha1_of(b)),
{
}

} // verus!
