//! Building text as bytes: literal pieces, repeated pieces and decimal
//! numbers.

use vstd::prelude::*;
use vstd::string::StringSliceAdditionalSpecFns;

verus! {

/// The character `'0'`, first of the ten digits.
pub const DIGIT_ZERO: u8 = 48;

/// The decimal digits of `n`, most significant first, without padding.
pub open spec fn digits(n: nat) -> Seq<u8>
    decreases n,
{
    if n < 10 {
        seq![(DIGIT_ZERO + n) as u8]
    } else {
        digits(n / 10).push((DIGIT_ZERO + n % 10) as u8)
    }
}

/// The decimal digits of `n` with zeros in front up to `width` characters.
/// A number with more digits than `width` keeps them all.
pub open spec fn zero_padded(n: nat, width: nat) -> Seq<u8> {
    if digits(n).len() >= width {
        digits(n)
    } else {
        Seq::new((width - digits(n).len()) as nat, |i: int| DIGIT_ZERO) + digits(n)
    }
}

/// `piece` written `n` times in a row.
pub open spec fn repeated(piece: Seq<u8>, n: nat) -> Seq<u8>
    decreases n,
{
    if n == 0 {
        Seq::empty()
    } else {
        repeated(piece, (n - 1) as nat) + piece
    }
}

/// A number has at least one digit and no more digits than its value allows.
pub proof fn lemma_digits_len(n: nat)
    ensures
        1 <= digits(n).len(),
        digits(n).len() <= 1 || digits(n).len() <= n,
    decreases n,
{
    if n >= 10 {
        lemma_digits_len(n / 10);
    }
}

/// Appends every byte of `bytes` to `out`.
pub fn push_all(out: &mut Vec<u8>, bytes: &[u8])
    ensures
        final(out)@ == old(out)@ + bytes@,
{
    let mut i: usize = 0;
    while i < bytes.len()
        invariant
            i <= bytes.len(),
            out@ == old(out)@ + bytes@.subrange(0, i as int),
        decreases bytes.len() - i,
    {
        out.push(bytes[i]);
        i += 1;
    }
    assert(bytes@.subrange(0, i as int) == bytes@);
}

/// Appends the bytes of a piece of text to `out`.
pub fn push_text(out: &mut Vec<u8>, text: &str)
    ensures
        final(out)@ == old(out)@ + text.spec_bytes(),
{
    push_all(out, text.as_bytes());
}

/// Appends `piece` to `out` `n` times.
pub fn push_repeated(out: &mut Vec<u8>, piece: &[u8], n: usize)
    ensures
        final(out)@ == old(out)@ + repeated(piece@, n as nat),
{
    let mut i: usize = 0;
    assert(out@ + repeated(piece@, 0) == out@);
    while i < n
        invariant
            i <= n,
            out@ == old(out)@ + repeated(piece@, i as nat),
        decreases n - i,
    {
        push_all(out, piece);
        i += 1;
        assert(out@ == old(out)@ + repeated(piece@, i as nat)) by {
            assert(old(out)@ + repeated(piece@, (i - 1) as nat) + piece@ =~= old(out)@ + (repeated(
                piece@,
                (i - 1) as nat,
            ) + piece@));
        }
    }
}

/// Counts the decimal digits of `n`.
pub fn digit_count(n: usize) -> (count: usize)
    ensures
        count == digits(n as nat).len(),
        count >= 1,
    decreases n,
{
    proof {
        lemma_digits_len(n as nat);
    }
    if n < 10 {
        1
    } else {
        proof {
            lemma_digits_len((n / 10) as nat);
        }
        digit_count(n / 10) + 1
    }
}

/// Appends the decimal digits of `n` to `out`.
pub fn push_digits(out: &mut Vec<u8>, n: usize)
    ensures
        final(out)@ == old(out)@ + digits(n as nat),
    decreases n,
{
    if n < 10 {
        out.push(DIGIT_ZERO + n as u8);
        assert(out@ =~= old(out)@ + digits(n as nat));
    } else {
        push_digits(out, n / 10);
        out.push(DIGIT_ZERO + (n % 10) as u8);
        assert(out@ =~= old(out)@ + digits(n as nat));
    }
}

/// Appends `n` in decimal to `out`, with zeros in front where it has fewer
/// than `width` digits.
pub fn push_padded(out: &mut Vec<u8>, n: usize, width: usize)
    ensures
        final(out)@ == old(out)@ + zero_padded(n as nat, width as nat),
{
    let count: usize = digit_count(n);
    let ghost zeros: Seq<u8> = Seq::empty();
    let mut i: usize = count;
    assert(out@ + zeros == out@);
    while i < width
        invariant
            count <= i,
            i <= width || i == count,
            zeros == Seq::new((i - count) as nat, |k: int| DIGIT_ZERO),
            out@ == old(out)@ + zeros,
        decreases width - i,
    {
        out.push(DIGIT_ZERO);
        i += 1;
        proof {
            let more = Seq::new((i - count) as nat, |k: int| DIGIT_ZERO);
            assert(old(out)@ + zeros.push(DIGIT_ZERO) =~= old(out)@ + more);
            assert(out@ =~= old(out)@ + zeros.push(DIGIT_ZERO));
            zeros = more;
        }
    }
    push_digits(out, n);
    proof {
        if count >= width {
            assert(zeros =~= Seq::empty());
        }
        assert(out@ =~= old(out)@ + zero_padded(n as nat, width as nat));
    }
}

} // verus!
