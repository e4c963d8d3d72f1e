//! Reading a resolution written as `<width>x<height>`.
use vstd::prelude::*;
use crate::mode_db::Resolution;

verus! {

pub open spec fn is_digit(c: char) -> bool {
    '0' <= c && c <= '9'
}

pub open spec fn all_digits(s: Seq<char>) -> bool {
    s.len() > 0 && forall|i: int| 0 <= i < s.len() ==> is_digit(#[trigger] s[i])
}

/// The number that a string of decimal digits writes.
pub open spec fn digits_value(s: Seq<char>) -> nat
    decreases s.len(),
{
    if s.len() == 0 {
        0
    } else {
        digits_value(s.drop_last()) * 10 + ((s.last() as nat) - ('0' as nat)) as nat
    }
}

/// `s` is one or more digits, an `x` at position `i`, and one or more digits.
pub open spec fn split_at_x(s: Seq<char>, i: int) -> bool {
    0 <= i < s.len() && s[i] == 'x' && all_digits(s.subrange(0, i)) && all_digits(s.subrange(i + 1, s.len() as int))
}

/// Why a resolution could not be read.
#[derive(PartialEq, Eq, Structural, Clone, Copy, Debug)]
pub enum ResolutionError {
    /// The text is not digits, `x`, digits.
    WrongFormat,
    /// The width does not fit 32 bits.
    BadWidth,
    /// The height does not fit 32 bits.
    BadHeight,
}

/// What reading `s` as a resolution gives.
pub open spec fn resolution_of(s: Seq<char>) -> Result<Resolution, ResolutionError> {
    if exists|i: int| split_at_x(s, i) {
        let i = choose|i: int| split_at_x(s, i);
        let w = digits_value(s.subrange(0, i));
        let h = digits_value(s.subrange(i + 1, s.len() as int));
        if w > u32::MAX {
            Err(ResolutionError::BadWidth)
        } else if h > u32::MAX {
            Err(ResolutionError::BadHeight)
        } else {
            Ok(Resolution { width: w as u32, height: h as u32 })
        }
    } else {
        Err(ResolutionError::WrongFormat)
    }
}

/// The value of the digits of `s` from `from` to `to`, if it fits 32 bits.
fn parse_digits(s: &str, from: usize, to: usize) -> (r: Option<u32>)
    requires
        from <= to <= s@.len(),
        forall|i: int| from <= i < to ==> is_digit(#[trigger] s@[i]),
    ensures
        r matches Some(v) ==> v as nat == digits_value(s@.subrange(from as int, to as int)),
        r is None <==> digits_value(s@.subrange(from as int, to as int)) > u32::MAX,
{
    let mut v: u64 = 0;
    let mut over = false;
    let mut k: usize = from;
    while k < to
        invariant
            from <= k <= to <= s@.len(),
            forall|i: int| from <= i < to ==> is_digit(#[trigger] s@[i]),
            !over ==> v as nat == digits_value(s@.subrange(from as int, k as int)) && v <= u32::MAX,
            over ==> digits_value(s@.subrange(from as int, k as int)) > u32::MAX,
        decreases to - k,
    {
        let c = s.get_char(k);
        assert(is_digit(s@[k as int]));
        let d: u64 = (c as u32 - '0' as u32) as u64;
        assert(s@.subrange(from as int, k + 1).drop_last() =~= s@.subrange(from as int, k as int));
        assert(s@.subrange(from as int, k + 1).last() == c);
        if !over {
            v = v * 10 + d;
            if v > 0xffff_ffff {
                over = true;
            }
        }
        k = k + 1;
    }
    if over {
        None
    } else {
        Some(v as u32)
    }
}

impl Resolution {
    /// Reads `<width>x<height>`, each one or more decimal digits, and nothing else.
    pub fn parse(s: &str) -> (r: Result<Resolution, ResolutionError>)
        ensures
            r == resolution_of(s@),
    {
        let n = s.unicode_len();
        let mut i: usize = 0;
        while i < n && s.get_char(i) != 'x'
            invariant
                n == s@.len(),
                i <= n,
                forall|j: int| 0 <= j < i ==> s@[j] != 'x',
            decreases n - i,
        {
            i = i + 1;
        }
        if i == n || i == 0 || i + 1 == n {
            proof {
                if exists|p: int| split_at_x(s@, p) {
                    let p = choose|p: int| split_at_x(s@, p);
                    if p < i {
                        assert(s@[p] == 'x');
                    } else if i < n && p > i {
                        assert(s@.subrange(0, p)[i as int] == s@[i as int]);
                    } else if p == 0 {
                        assert(s@.subrange(0, p).len() == 0);
                    } else {
                        assert(s@.subrange(p + 1, n as int).len() == 0);
                    }
                }
            }
            return Err(ResolutionError::WrongFormat);
        }
        let mut k: usize = 0;
        while k < n
            invariant
                n == s@.len(),
                0 < i < n,
                s@[i as int] == 'x',
                k <= n,
                forall|j: int| 0 <= j < k && j != i ==> is_digit(#[trigger] s@[j]),
            decreases n - k,
        {
            if k != i {
                let c = s.get_char(k);
                if !('0' <= c && c <= '9') {
                    proof {
                        if exists|p: int| split_at_x(s@, p) {
                            let p = choose|p: int| split_at_x(s@, p);
                            if p < i {
                                assert(s@.subrange(p + 1, n as int)[i - p - 1] == s@[i as int]);
                            } else if p > i {
                                assert(s@.subrange(0, p)[i as int] == s@[i as int]);
                            } else if k < i {
                                assert(s@.subrange(0, p)[k as int] == s@[k as int]);
                            } else {
                                assert(s@.subrange(p + 1, n as int)[k - p - 1] == s@[k as int]);
                            }
                        }
                    }
                    return Err(ResolutionError::WrongFormat);
                }
            }
            k = k + 1;
        }
        proof {
            assert(split_at_x(s@, i as int));
            let p = choose|p: int| split_at_x(s@, p);
            if p < i {
                assert(s@.subrange(p + 1, n as int)[i - p - 1] == s@[i as int]);
            } else if p > i {
                assert(s@.subrange(0, p)[i as int] == s@[i as int]);
            }
            assert(p == i);
        }
        let w = parse_digits(s, 0, i);
        let h = parse_digits(s, i + 1, n);
        match (w, h) {
            (None, _) => Err(ResolutionError::BadWidth),
            (Some(_), None) => Err(ResolutionError::BadHeight),
            (Some(width), Some(height)) => Ok(Resolution { width, height }),
        }
    }
}

impl std::str::FromStr for Resolution {
    type Err = ResolutionError;

    fn from_str(s: &str) -> Result<Resolution, ResolutionError> {
        Resolution::parse(s)
    }
}

} // verus!
