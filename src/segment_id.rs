//! A segment's numeric identifier, read from its file name's stem.
use crate::error::SegmentIDError;
use vstd::prelude::*;
use vstd::string::StrSliceExecFns;

verus! {

/// The identifier of a segment: its file is `<id>.segment`.
#[derive(Debug, Clone, Copy, PartialEq, Eq)]
pub struct SegmentID(pub u64);

/// `c` is an ASCII decimal digit.
pub open spec fn is_digit(c: char) -> bool {
    '0' <= c <= '9'
}

/// The number that a string of decimal digits spells.
pub open spec fn digits_value(s: Seq<char>) -> nat
    decreases s.len(),
{
    if s.len() == 0 {
        0
    } else {
        digits_value(s.drop_last()) * 10 + (s.last() as nat - '0' as nat) as nat
    }
}

/// The digits of an unsigned decimal numeral: one leading `+` is allowed.
pub open spec fn unsigned_digits(s: Seq<char>) -> Seq<char> {
    if s.len() > 0 && s[0] == '+' {
        s.drop_first()
    } else {
        s
    }
}

/// The 64-bit unsigned integer that `s` spells in decimal, if any.
pub open spec fn parse_u64(s: Seq<char>) -> Option<u64> {
    let d = unsigned_digits(s);
    if d.len() > 0 && (forall|i: int| 0 <= i < d.len() ==> is_digit(#[trigger] d[i]))
        && digits_value(d) <= u64::MAX {
        Some(digits_value(d) as u64)
    } else {
        None
    }
}

proof fn lemma_digits_value_prefix(s: Seq<char>, i: int)
    requires
        0 <= i <= s.len(),
        forall|j: int| 0 <= j < s.len() ==> is_digit(#[trigger] s[j]),
    ensures
        digits_value(s.subrange(0, i)) <= digits_value(s),
    decreases s.len(),
{
    if i < s.len() {
        assert(s.drop_last() == s.subrange(0, s.len() - 1));
        lemma_digits_value_prefix(s.drop_last(), i);
        assert(s.drop_last().subrange(0, i) == s.subrange(0, i));
    } else {
        assert(s.subrange(0, i) == s);
    }
}

impl SegmentID {
    /// Reads `s` as a decimal unsigned 64-bit integer.
    pub fn from_str(s: &str) -> (r: Result<SegmentID, SegmentIDError>)
        ensures
            match parse_u64(s@) {
                Some(n) => r == Ok::<SegmentID, SegmentIDError>(SegmentID(n)),
                None => r == Err::<SegmentID, SegmentIDError>(SegmentIDError::NotAnInt),
            },
    {
        let n = s.unicode_len();
        let start: usize = if n > 0 && s.get_char(0) == '+' {
            1
        } else {
            0
        };
        let ghost d = unsigned_digits(s@);
        assert(d == s@.subrange(start as int, n as int));
        if start == n {
            return Err(SegmentIDError::NotAnInt);
        }
        let mut acc: u64 = 0;
        let mut i: usize = start;
        while i < n
            invariant
                start <= i <= n,
                n == s@.len(),
                d == s@.subrange(start as int, n as int),
                d == unsigned_digits(s@),
                forall|j: int| 0 <= j < i - start ==> is_digit(#[trigger] d[j]),
                acc == digits_value(d.subrange(0, i - start)),
            decreases n - i,
        {
            let c = s.get_char(i);
            if !('0' <= c && c <= '9') {
                assert(!is_digit(d[i - start]));
                assert(!(forall|j: int| 0 <= j < d.len() ==> is_digit(#[trigger] d[j])));
                assert(parse_u64(s@) is None);
                return Err(SegmentIDError::NotAnInt);
            }
            let digit = (c as u32 - '0' as u32) as u64;
            let ghost prefix = d.subrange(0, i + 1 - start);
            assert(prefix.drop_last() == d.subrange(0, i - start));
            assert(prefix.last() == c);
            if acc > (u64::MAX - digit) / 10 {
                proof {
                    assert(digits_value(prefix) > u64::MAX) by (nonlinear_arith)
                        requires
                            digits_value(prefix) == acc * 10 + digit,
                            acc > (u64::MAX - digit) / 10,
                            digit <= 9,
                    ;
                    if forall|j: int| 0 <= j < d.len() ==> is_digit(#[trigger] d[j]) {
                        lemma_digits_value_prefix(d, i + 1 - start);
                    }
                    assert(parse_u64(s@) is None);
                }
                return Err(SegmentIDError::NotAnInt);
            }
            assert(acc * 10 + digit <= u64::MAX) by (nonlinear_arith)
                requires
                    acc <= (u64::MAX - digit) / 10,
                    digit <= 9,
            ;
            acc = acc * 10 + digit;
            i = i + 1;
        }
        assert(d.subrange(0, d.len() as int) == d);
        Ok(SegmentID(acc))
    }

    /// Reads the identifier from a file name's stem; `None` stands for a
    /// path that has no stem.
    pub fn from_stem(stem: Option<&str>) -> (r: Result<SegmentID, SegmentIDError>)
        ensures
            match stem {
                None => r == Err::<SegmentID, SegmentIDError>(SegmentIDError::IDFromEmtpyPath),
                Some(s) => match parse_u64(s@) {
                    Some(n) => r == Ok::<SegmentID, SegmentIDError>(SegmentID(n)),
                    None => r == Err::<SegmentID, SegmentIDError>(SegmentIDError::NotAnInt),
                },
            },
    {
        match stem {
            None => Err(SegmentIDError::IDFromEmtpyPath),
            Some(s) => SegmentID::from_str(s),
        }
    }
}

} // verus!
