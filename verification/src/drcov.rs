use vstd::arithmetic::div_mod::lemma_div_denominator;
use vstd::prelude::*;

verus! {

/// The ASCII code of the lowercase hex digit for the nibble `n`.
pub open spec fn hex_digit(n: int) -> u8 {
    if n < 10 {
        (48 + n) as u8
    } else {
        (87 + n) as u8
    }
}

/// Sixteen raised to `k` (one for `k` at or below zero).
pub open spec fn pow16(k: int) -> int
    decreases k,
{
    if k <= 0 {
        1
    } else {
        16 * pow16(k - 1)
    }
}

/// Sixteen to any power is positive.
pub proof fn lemma_pow16_pos(k: int)
    ensures
        pow16(k) >= 1,
    decreases k,
{
    if k > 0 {
        lemma_pow16_pos(k - 1);
    }
}

/// The `k`-th least significant hex digit of `h`.
pub open spec fn nibble(h: u64, k: int) -> int {
    (h as int / pow16(k)) % 16
}

/// The sixteen hex digits of `h`, most significant first, as ASCII bytes.
pub open spec fn hex16(h: u64) -> Seq<u8> {
    Seq::new(16, |i: int| hex_digit(nibble(h, 15 - i)))
}

/// `h` as sixteen zero-padded lowercase hex digits.
pub fn format_hex16(h: u64) -> (r: Vec<u8>)
    ensures
        r@ == hex16(h),
{
    let mut digits: Vec<u8> = Vec::new();
    let mut v: u64 = h;
    let mut k: usize = 0;
    while k < 16
        invariant
            k <= 16,
            digits@.len() == k,
            v as int == h as int / pow16(k as int),
            forall|i: int| 0 <= i < k ==> digits@[i] == hex_digit(nibble(h, i)),
        decreases 16 - k,
    {
        let d: u8 = (v % 16) as u8;
        let c: u8 = if d < 10 {
            48 + d
        } else {
            87 + d
        };
        proof {
            assert(d as int == nibble(h, k as int));
            assert(c == hex_digit(nibble(h, k as int)));
        }
        digits.push(c);
        proof {
            lemma_pow16_pos(k as int);
            lemma_div_denominator(h as int, pow16(k as int), 16);
            assert(pow16(k as int) * 16 == pow16(k as int + 1));
        }
        v = v / 16;
        k = k + 1;
    }
    let mut r: Vec<u8> = Vec::new();
    let mut j: usize = 0;
    while j < 16
        invariant
            j <= 16,
            digits@.len() == 16,
            r@.len() == j,
            forall|i: int| 0 <= i < j ==> r@[i] == hex_digit(nibble(h, 15 - i)),
            forall|i: int| 0 <= i < 16 ==> digits@[i] == hex_digit(nibble(h, i)),
        decreases 16 - j,
    {
        r.push(digits[15 - j]);
        j = j + 1;
    }
    proof {
        assert(r@ =~= hex16(h));
    }
    r
}

/// The bytes of "./coverage/".
pub open spec fn drcov_prefix() -> Seq<u8> {
    seq![46u8, 47u8, 99u8, 111u8, 118u8, 101u8, 114u8, 97u8, 103u8, 101u8, 47u8]
}

/// The bytes of ".drcov".
pub open spec fn drcov_suffix() -> Seq<u8> {
    seq![46u8, 100u8, 114u8, 99u8, 111u8, 118u8]
}

/// The trace path for the digest `h`: "./coverage/", sixteen hex digits,
/// ".drcov".
pub open spec fn drcov_filename_spec(h: u64) -> Seq<u8> {
    drcov_prefix() + hex16(h) + drcov_suffix()
}

/// The trace path for the digest `digest`, as bytes.
pub fn drcov_filename(digest: u64) -> (r: Vec<u8>)
    ensures
        r@ == drcov_filename_spec(digest),
{
    let hex = format_hex16(digest);
    let mut r: Vec<u8> = Vec::new();
    r.push(46);
    r.push(47);
    r.push(99);
    r.push(111);
    r.push(118);
    r.push(101);
    r.push(114);
    r.push(97);
    r.push(103);
    r.push(101);
    r.push(47);
    proof {
        assert(r@ =~= drcov_prefix());
    }
    let mut i: usize = 0;
    while i < hex.len()
        invariant
            i <= hex@.len(),
            hex@ == hex16(digest),
            r@ == drcov_prefix() + hex@.subrange(0, i as int),
        decreases hex@.len() - i,
    {
        r.push(hex[i]);
        proof {
            assert(r@ =~= drcov_prefix() + hex@.subrange(0, i as int + 1));
        }
        i = i + 1;
    }
    proof {
        assert(hex@.subrange(0, hex@.len() as int) =~= hex@);
    }
    r.push(46);
    r.push(100);
    r.push(114);
    r.push(99);
    r.push(111);
    r.push(118);
    proof {
        assert(r@ =~= drcov_filename_spec(digest));
    }
    r
}

/// Relies on ahash::AHasher with fixed keys, through std::hash::Hasher: a
/// 64-bit digest of the bytes. The digest depends on the build's target
/// features, so nothing is promised of it.
#[verifier::external_body]
fn ahash_digest(bytes: &Vec<u8>) -> u64 {
    let mut hasher = ahash::AHasher::new_with_keys(0, 0);
    std::hash::Hasher::write(&mut hasher, bytes.as_slice());
    std::hash::Hasher::finish(&hasher)
}

/// The trace path under which an input's basic-block trace is filed: the
/// digest of its bytes, formatted as sixteen hex digits between
/// "./coverage/" and ".drcov".
pub fn drcov_filename_for(bytes: &Vec<u8>) -> (r: Vec<u8>)
    ensures
        exists|h: u64| r@ == drcov_filename_spec(h),
{
    let digest = ahash_digest(bytes);
    let r = drcov_filename(digest);
    proof {
        assert(r@ == drcov_filename_spec(digest));
    }
    r
}

} // verus!
