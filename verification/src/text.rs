//! Byte-level text helpers shared by the three tools: ASCII letter
//! classification, ASCII lowercasing, decimal rendering of line numbers,
//! and splitting a byte stream into newline-terminated lines.

use vstd::prelude::*;

verus! {

/// The byte value of `'\n'`.
pub const NEWLINE: u8 = 10;

/// `b` is an ASCII lower-case letter (`'a'..='z'`).
pub open spec fn is_lower(b: u8) -> bool {
    97 <= b && b <= 122
}

/// `b` is an ASCII upper-case letter (`'A'..='Z'`).
pub open spec fn is_upper(b: u8) -> bool {
    65 <= b && b <= 90
}

/// `b` is an ASCII letter. The tools treat exactly these bytes as
/// alphabetic: bytes of multi-byte UTF-8 sequences are all at least 128
/// and therefore pass through every transform unchanged.
pub open spec fn is_alpha(b: u8) -> bool {
    is_lower(b) || is_upper(b)
}

/// `b` with an upper-case ASCII letter folded to lower case; every other
/// byte is left as it is.
pub open spec fn to_lower_byte(b: u8) -> u8 {
    if is_upper(b) {
        (b + 32) as u8
    } else {
        b
    }
}

/// `s` folded to lower case byte by byte.
pub open spec fn lower_seq(s: Seq<u8>) -> Seq<u8> {
    Seq::new(s.len(), |i: int| to_lower_byte(s[i]))
}

/// Runtime test for [`is_alpha`].
pub fn byte_is_alpha(b: u8) -> (r: bool)
    ensures
        r == is_alpha(b),
{
    (97 <= b && b <= 122) || (65 <= b && b <= 90)
}

/// Folds every ASCII upper-case letter of `s` to lower case.
pub fn lower_bytes(s: &Vec<u8>) -> (r: Vec<u8>)
    ensures
        r@ == lower_seq(s@),
{
    let mut r: Vec<u8> = Vec::new();
    let mut i: usize = 0;
    while i < s.len()
        invariant
            i <= s@.len(),
            r@ == lower_seq(s@).take(i as int),
        decreases s@.len() - i,
    {
        let b = s[i];
        let low: u8 = if 65 <= b && b <= 90 {
            b + 32
        } else {
            b
        };
        r.push(low);
        proof {
            assert(r@ =~= lower_seq(s@).take(i as int + 1));
        }
        i = i + 1;
    }
    proof {
        assert(lower_seq(s@).take(s@.len() as int) =~= lower_seq(s@));
    }
    r
}

/// The decimal digits of `n`, most significant first, as ASCII bytes.
pub open spec fn dec_digits(n: nat) -> Seq<u8>
    decreases n,
{
    if n < 10 {
        seq![(48 + n) as u8]
    } else {
        dec_digits(n / 10).push((48 + n % 10) as u8)
    }
}

/// Appends the decimal digits of `n` to `out`.
pub fn push_decimal(out: &mut Vec<u8>, n: usize)
    ensures
        final(out)@ == old(out)@ + dec_digits(n as nat),
    decreases n,
{
    if n < 10 {
        out.push(48 + n as u8);
        proof {
            assert(out@ =~= old(out)@ + dec_digits(n as nat));
        }
    } else {
        proof {
            vstd::arithmetic::div_mod::lemma_div_is_strictly_smaller(n as int, 10);
        }
        push_decimal(out, n / 10);
        out.push(48 + (n % 10) as u8);
        proof {
            assert(out@ =~= old(out)@ + dec_digits(n as nat));
        }
    }
}

/// Appends every byte of `src` to `out`.
pub fn push_bytes(out: &mut Vec<u8>, src: &Vec<u8>)
    ensures
        final(out)@ == old(out)@ + src@,
{
    out.extend_from_slice(src.as_slice());
    proof {
        assert(out@ =~= old(out)@ + src@);
    }
}

/// The length of the first line of `s`: the index of the first newline
/// byte, or the length of `s` when it holds none.
pub open spec fn line_end(s: Seq<u8>) -> int
    decreases s.len(),
{
    if s.len() == 0 {
        0
    } else if s[0] == NEWLINE {
        0
    } else {
        1 + line_end(s.skip(1))
    }
}

pub proof fn lemma_line_end(s: Seq<u8>)
    ensures
        0 <= line_end(s) <= s.len(),
        forall|j: int| 0 <= j < line_end(s) ==> s[j] != NEWLINE,
        line_end(s) < s.len() ==> s[line_end(s)] == NEWLINE,
    decreases s.len(),
{
    if s.len() == 0 {
    } else if s[0] == NEWLINE {
    } else {
        lemma_line_end(s.skip(1));
        assert forall|j: int| 0 <= j < line_end(s) implies s[j] != NEWLINE by {
            if j > 0 {
                assert(s.skip(1)[j - 1] == s[j]);
            }
        }
    }
}

/// A scan that finds no newline before `k`, and a newline (or the end of
/// the sequence) at `k`, has found the end of the first line.
pub proof fn lemma_line_end_at(s: Seq<u8>, k: int)
    requires
        0 <= k <= s.len(),
        forall|j: int| 0 <= j < k ==> s[j] != NEWLINE,
        k < s.len() ==> s[k] == NEWLINE,
    ensures
        line_end(s) == k,
    decreases s.len(),
{
    if s.len() == 0 {
    } else if k == 0 {
    } else {
        assert(forall|j: int| 0 <= j < k - 1 ==> s.skip(1)[j] == s[j + 1]);
        assert(k - 1 < s.skip(1).len() ==> s.skip(1)[k - 1] == s[k]);
        lemma_line_end_at(s.skip(1), k - 1);
    }
}

/// `s` split into lines: each line is the bytes up to the next newline,
/// with the newline itself stripped. A trailing newline closes the last
/// line without opening an empty one, so `"a\nb\n"` and `"a\nb"` both
/// split into `["a", "b"]`, and the empty stream splits into no lines.
pub open spec fn split_lines_spec(s: Seq<u8>) -> Seq<Seq<u8>>
    decreases s.len() via split_lines_spec_decreases
{
    if s.len() == 0 {
        Seq::empty()
    } else {
        let e = line_end(s);
        if e == s.len() {
            seq![s]
        } else {
            seq![s.take(e)] + split_lines_spec(s.skip(e + 1))
        }
    }
}

#[via_fn]
proof fn split_lines_spec_decreases(s: Seq<u8>) {
    lemma_line_end(s);
}

/// Splits `bytes` into its lines, as [`split_lines_spec`] describes.
pub fn split_lines(bytes: &Vec<u8>) -> (r: Vec<Vec<u8>>)
    ensures
        r.deep_view() == split_lines_spec(bytes@),
{
    let mut r: Vec<Vec<u8>> = Vec::new();
    let mut pos: usize = 0;
    proof {
        assert(bytes@.skip(0) =~= bytes@);
        assert(r.deep_view() + split_lines_spec(bytes@) =~~= split_lines_spec(bytes@));
    }
    while pos < bytes.len()
        invariant
            pos <= bytes@.len(),
            split_lines_spec(bytes@) == r.deep_view() + split_lines_spec(bytes@.skip(pos as int)),
        decreases bytes@.len() - pos,
    {
        let ghost oldpos = pos as int;
        let ghost rest = bytes@.skip(oldpos);
        let mut end: usize = pos;
        while end < bytes.len() && bytes[end] != NEWLINE
            invariant
                pos <= end <= bytes@.len(),
                forall|j: int| pos <= j < end ==> bytes@[j] != NEWLINE,
            decreases bytes@.len() - end,
        {
            end = end + 1;
        }
        let mut line: Vec<u8> = Vec::new();
        let mut k: usize = pos;
        while k < end
            invariant
                pos <= k <= end <= bytes@.len(),
                line@ == bytes@.subrange(pos as int, k as int),
            decreases end - k,
        {
            line.push(bytes[k]);
            proof {
                assert(line@ =~= bytes@.subrange(pos as int, k as int + 1));
            }
            k = k + 1;
        }
        proof {
            assert(forall|j: int| 0 <= j < rest.len() ==> rest[j] == bytes@[oldpos + j]);
            lemma_line_end_at(rest, end - oldpos);
            assert(line@ =~= rest.take(end - oldpos));
        }
        let ghost old_r = r.deep_view();
        r.push(line);
        proof {
            assert(r.deep_view() =~~= old_r + seq![line@]);
        }
        if end == bytes.len() {
            proof {
                assert(rest.take(end - oldpos) =~= rest);
                assert(split_lines_spec(rest) == seq![rest]);
                assert(bytes@.skip(end as int) =~= Seq::<u8>::empty());
                assert(r.deep_view() + split_lines_spec(bytes@.skip(end as int)) =~~= old_r
                    + split_lines_spec(rest));
            }
            pos = end;
        } else {
            proof {
                let e = end - oldpos;
                assert(rest.skip(e + 1) =~= bytes@.skip(end + 1));
                assert(split_lines_spec(rest) == seq![rest.take(e)] + split_lines_spec(
                    rest.skip(e + 1),
                ));
                assert(r.deep_view() + split_lines_spec(bytes@.skip(end + 1)) =~~= old_r
                    + split_lines_spec(rest));
            }
            pos = end + 1;
        }
    }
    proof {
        assert(bytes@.skip(pos as int) =~= Seq::<u8>::empty());
        assert(r.deep_view() + split_lines_spec(bytes@.skip(pos as int)) =~~= r.deep_view());
    }
    r
}

} // verus!
