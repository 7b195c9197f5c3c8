//! The digest engine: derives a blob identifier from a byte payload by
//! hashing it with SHA-256, keeping a configured number of trailing
//! digest bytes, and rendering them as lowercase hexadecimal.

use vstd::prelude::*;
use vstd::string::StringExecFns;

verus! {

/// How many trailing bytes of the 256-bit digest are kept for the
/// identifier. Shorter identifiers trade collision resistance for
/// brevity; the choice is a deliberate configuration decision.
#[derive(Clone, Copy, PartialEq, Eq, Structural, Debug)]
pub enum HashOutputSize {
    Full,
    Half,
    Short32,
    Short16,
}

impl HashOutputSize {
    /// The number of digest bytes this size keeps.
    pub open spec fn spec_byte_count(self) -> int {
        match self {
            HashOutputSize::Full => 32,
            HashOutputSize::Half => 16,
            HashOutputSize::Short32 => 8,
            HashOutputSize::Short16 => 4,
        }
    }

    pub fn byte_count(self) -> (n: usize)
        ensures
            n == self.spec_byte_count(),
    {
        match self {
            HashOutputSize::Full => 32,
            HashOutputSize::Half => 16,
            HashOutputSize::Short32 => 8,
            HashOutputSize::Short16 => 4,
        }
    }
}

/// The SHA-256 digest of a byte sequence: a pure function of the bytes
/// alone, left abstract because its definition is the hash algorithm
/// itself.
pub uninterp spec fn sha256_of(data: Seq<u8>) -> Seq<u8>;

/// Relies on sha2's `Sha256::digest`: a 32-byte digest that depends on
/// the input bytes alone.
#[verifier::external_body]
fn sha256(data: &[u8]) -> (r: Vec<u8>)
    ensures
        r@ == sha256_of(data@),
        r@.len() == 32,
{
    <sha2::Sha256 as sha2::Digest>::digest(data).to_vec()
}

/// The lowercase hexadecimal digit for a value below sixteen.
pub open spec fn spec_hex_digit(n: int) -> char {
    if n == 0 {
        '0'
    } else if n == 1 {
        '1'
    } else if n == 2 {
        '2'
    } else if n == 3 {
        '3'
    } else if n == 4 {
        '4'
    } else if n == 5 {
        '5'
    } else if n == 6 {
        '6'
    } else if n == 7 {
        '7'
    } else if n == 8 {
        '8'
    } else if n == 9 {
        '9'
    } else if n == 10 {
        'a'
    } else if n == 11 {
        'b'
    } else if n == 12 {
        'c'
    } else if n == 13 {
        'd'
    } else if n == 14 {
        'e'
    } else {
        'f'
    }
}

/// The two lowercase hexadecimal digits of one byte, high nibble first.
pub open spec fn byte_hex(b: u8) -> Seq<char> {
    seq![spec_hex_digit(b as int / 16), spec_hex_digit(b as int % 16)]
}

/// The lowercase hexadecimal rendering of a byte sequence, two digits
/// per byte, in byte order.
pub open spec fn hex_of(bytes: Seq<u8>) -> Seq<char>
    decreases bytes.len(),
{
    if bytes.len() == 0 {
        Seq::empty()
    } else {
        hex_of(bytes.drop_last()) + byte_hex(bytes.last())
    }
}

pub proof fn lemma_hex_of_len(bytes: Seq<u8>)
    ensures
        hex_of(bytes).len() == 2 * bytes.len(),
    decreases bytes.len(),
{
    if bytes.len() > 0 {
        lemma_hex_of_len(bytes.drop_last());
    }
}

fn hex_digit_char(n: u8) -> (r: &'static str)
    requires
        n < 16,
    ensures
        r@ == seq![spec_hex_digit(n as int)],
{
    let r: &'static str = match n {
        0 => "0",
        1 => "1",
        2 => "2",
        3 => "3",
        4 => "4",
        5 => "5",
        6 => "6",
        7 => "7",
        8 => "8",
        9 => "9",
        10 => "a",
        11 => "b",
        12 => "c",
        13 => "d",
        14 => "e",
        _ => "f",
    };
    proof {
        reveal_strlit("0");
        reveal_strlit("1");
        reveal_strlit("2");
        reveal_strlit("3");
        reveal_strlit("4");
        reveal_strlit("5");
        reveal_strlit("6");
        reveal_strlit("7");
        reveal_strlit("8");
        reveal_strlit("9");
        reveal_strlit("a");
        reveal_strlit("b");
        reveal_strlit("c");
        reveal_strlit("d");
        reveal_strlit("e");
        reveal_strlit("f");
        assert(r@ =~= seq![spec_hex_digit(n as int)]);
    }
    r
}

/// The identifier derived from a payload at a given output size: the
/// trailing `size` bytes of the payload's SHA-256 digest, hex-encoded.
pub open spec fn identifier_of(data: Seq<u8>, size: HashOutputSize) -> Seq<char> {
    hex_of(sha256_of(data).subrange(32 - size.spec_byte_count(), 32))
}

/// Derive the blob identifier for a payload: hash it with SHA-256,
/// keep the trailing `size` bytes of the digest, and hex-encode them.
/// Never fails; the empty payload hashes like any other.
pub fn get_truncated_sha256(data: &[u8], size: HashOutputSize) -> (r: String)
    ensures
        r@ == identifier_of(data@, size),
        r@.len() == 2 * size.spec_byte_count(),
        sha256_of(data@).len() == 32,
{
    let digest = sha256(data);
    let n = size.byte_count();
    let start = 32 - n;
    let mut out = String::new();
    let mut i = start;
    while i < 32
        invariant
            start <= i <= 32,
            start == 32 - size.spec_byte_count(),
            digest@ == sha256_of(data@),
            digest@.len() == 32,
            out@ == hex_of(digest@.subrange(start as int, i as int)),
        decreases 32 - i,
    {
        let b = digest[i];
        let hi = b / 16;
        let lo = b % 16;
        out.append(hex_digit_char(hi));
        out.append(hex_digit_char(lo));
        proof {
            let pre = digest@.subrange(start as int, i as int);
            let post = digest@.subrange(start as int, i + 1 as int);
            assert(post.drop_last() =~= pre);
            assert(post.last() == digest@[i as int]);
        }
        i += 1;
    }
    proof {
        assert(digest@.subrange(start as int, 32) =~= sha256_of(data@).subrange(
            32 - size.spec_byte_count(),
            32,
        ));
        lemma_hex_of_len(digest@.subrange(start as int, 32));
    }
    out
}

/// Hex encoding turns a byte suffix into the matching character
/// suffix: dropping the first `k` bytes drops the first `2 * k`
/// digits.
pub proof fn lemma_hex_of_suffix(bytes: Seq<u8>, k: int)
    requires
        0 <= k <= bytes.len(),
    ensures
        hex_of(bytes.subrange(k, bytes.len() as int)) == hex_of(bytes).subrange(
            2 * k,
            2 * bytes.len() as int,
        ),
    decreases bytes.len(),
{
    lemma_hex_of_len(bytes);
    if k == bytes.len() {
        assert(bytes.subrange(k, bytes.len() as int) =~= Seq::<u8>::empty());
        assert(hex_of(bytes).subrange(2 * k, 2 * bytes.len() as int) =~= Seq::<char>::empty());
    } else {
        let d = bytes.drop_last();
        lemma_hex_of_len(d);
        lemma_hex_of_suffix(d, k);
        let tail = bytes.subrange(k, bytes.len() as int);
        assert(tail.drop_last() =~= d.subrange(k, d.len() as int));
        assert(tail.last() == bytes.last());
        assert(hex_of(tail) == hex_of(d).subrange(2 * k, 2 * d.len() as int) + byte_hex(bytes.last()));
        assert(hex_of(tail) =~= hex_of(bytes).subrange(2 * k, 2 * bytes.len() as int));
    }
}

/// Truncation keeps a suffix: at every output size, the identifier is
/// the trailing `2 * size` characters of the full-size identifier of
/// the same payload.
pub proof fn lemma_truncation_is_suffix(data: Seq<u8>, size: HashOutputSize)
    ensures
        sha256_of(data).len() == 32 ==> identifier_of(data, size) == identifier_of(
            data,
            HashOutputSize::Full,
        ).subrange(64 - 2 * size.spec_byte_count(), 64),
{
    if sha256_of(data).len() == 32 {
        let d = sha256_of(data);
        assert(d.subrange(0, 32) =~= d);
        lemma_hex_of_suffix(d, 32 - size.spec_byte_count());
    }
}

/// Deriving an identifier is deterministic: equal byte content always
/// yields the identical identifier at any fixed output size.
pub proof fn lemma_identifier_deterministic(b1: Seq<u8>, b2: Seq<u8>, size: HashOutputSize)
    requires
        b1 == b2,
    ensures
        identifier_of(b1, size) == identifier_of(b2, size),
{
}

} // verus!
