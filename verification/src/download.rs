//! The decisions of the download pipeline that are plain computation: how a
//! server's `Content-Range` answer is read, and when a download splits into
//! parallel range requests.  The network traffic itself stays outside.

use vstd::prelude::*;
use vstd::string::StringSliceAdditionalSpecFns;
use crate::camelot::all_digits;
use crate::camelot::digits_val;

verus! {

/// Size above which a download with more than one worker splits into
/// parallel range requests (5 MiB).
pub const MULTI_STREAM_THRESHOLD_BYTES: u64 = 5_242_880;

/// Index of the last occurrence of `b` in `s`.
pub open spec fn rfind_byte(s: Seq<u8>, b: u8) -> Option<int>
    decreases s.len(),
{
    if s.len() == 0 {
        None
    } else if s.last() == b {
        Some(s.len() - 1)
    } else {
        rfind_byte(s.drop_last(), b)
    }
}

proof fn lemma_rfind_in_suffix(s: Seq<u8>, idx: int)
    requires
        0 <= idx < s.len(),
        s[idx] == 47,
        forall|k: int| idx < k < s.len() ==> #[trigger] s[k] != 47,
    ensures
        rfind_byte(s, 47) == Some(idx),
    decreases s.len(),
{
    if idx == s.len() - 1 {
    } else {
        assert(s.last() != 47);
        let s1 = s.drop_last();
        assert(forall|k: int| idx < k < s1.len() ==> #[trigger] s1[k] != 47);
        lemma_rfind_in_suffix(s1, idx);
    }
}

/// Total size in a `Content-Range` header value such as `bytes 0-0/12345`:
/// the digits after the last slash, with an optional plus sign, when they
/// name a value an unsigned 64-bit integer can hold.
pub open spec fn content_range_total_spec(s: Seq<u8>) -> Option<int> {
    match rfind_byte(s, 47) {
        Some(p) => {
            let rest = s.subrange(p + 1, s.len() as int);
            let digits = if rest.len() > 0 && rest[0] == 43 { rest.drop_first() } else { rest };
            if digits.len() > 0 && all_digits(digits) && digits_val(digits) < 0x1_0000_0000_0000_0000 {
                Some(digits_val(digits))
            } else {
                None
            }
        },
        None => None,
    }
}

/// Reads the total size out of a `Content-Range` header value.
pub fn parse_content_range_total(value: &str) -> (r: Option<u64>)
    ensures
        (match r {
            Some(v) => content_range_total_spec(value.spec_bytes()) == Some(v as int),
            None => content_range_total_spec(value.spec_bytes()) is None,
        }),
{
    let bytes = value.as_bytes();
    let ghost sb = value.spec_bytes();
    // Last slash.
    let mut i: usize = bytes.len();
    let mut slash: Option<usize> = None;
    proof {
        assert(sb.subrange(0, sb.len() as int) =~= sb);
    }
    while i > 0
        invariant
            i <= sb.len(),
            bytes@ == sb,
            match slash {
                Some(p) => p < sb.len() && sb[p as int] == 47
                    && rfind_byte(sb, 47) == Some(p as int),
                None => rfind_byte(sb.subrange(0, i as int), 47) == rfind_byte(sb, 47),
            },
            slash is None ==> forall|k: int| i <= k < sb.len() ==> #[trigger] sb[k] != 47,
        decreases i,
    {
        if slash.is_none() {
            if bytes[i - 1] == 47 {
                proof {
                    lemma_rfind_in_suffix(sb, i - 1);
                }
                slash = Some(i - 1);
            } else {
                proof {
                    let pre = sb.subrange(0, i as int);
                    assert(pre.last() != 47);
                    assert(pre.drop_last() =~= sb.subrange(0, i - 1));
                }
            }
        }
        i = i - 1;
    }
    let p = match slash {
        Some(p) => p,
        None => {
            proof {
                assert(sb.subrange(0, 0) =~= Seq::<u8>::empty());
            }
            return None;
        },
    };
    let ghost rest = sb.subrange(p + 1, sb.len() as int);
    // Optional plus sign.
    let digits_lo = if p + 1 < bytes.len() && bytes[p + 1] == 43 { p + 2 } else { p + 1 };
    let ghost digits = sb.subrange(digits_lo as int, sb.len() as int);
    proof {
        if digits_lo == p + 2 {
            assert(rest[0] == 43);
            assert(rest.drop_first() =~= digits);
        } else {
            assert(rest =~= digits);
        }
    }
    if digits_lo >= bytes.len() {
        return None;
    }
    // Accumulate, tracking unsigned-64 overflow exactly.
    let mut val: u64 = 0;
    let mut over = false;
    let mut j = digits_lo;
    while j < bytes.len()
        invariant
            digits_lo <= j <= sb.len(),
            bytes@ == sb,
            sb == value.spec_bytes(),
            digits == sb.subrange(digits_lo as int, sb.len() as int),
            digits.len() > 0,
            all_digits(sb.subrange(digits_lo as int, j as int)),
            !over ==> val == digits_val(sb.subrange(digits_lo as int, j as int)),
            over ==> digits_val(sb.subrange(digits_lo as int, j as int)) >= 0x1_0000_0000_0000_0000,
            content_range_total_spec(sb) == (if digits.len() > 0 && all_digits(digits)
                && digits_val(digits) < 0x1_0000_0000_0000_0000 {
                Some(digits_val(digits))
            } else {
                Option::<int>::None
            }),
        decreases sb.len() - j,
    {
        let b = bytes[j];
        if b < 48 || b > 57 {
            proof {
                assert(digits[j - digits_lo] == b);
                assert(!all_digits(digits));
            }
            return None;
        }
        proof {
            let pre = sb.subrange(digits_lo as int, j as int);
            let pre1 = sb.subrange(digits_lo as int, j + 1);
            assert(pre1.drop_last() =~= pre);
            assert(pre1.last() == b);
            crate::camelot::lemma_digits_val_nonneg_pub(pre);
        }
        let d = (b - 48) as u64;
        if over || val > 1_844_674_407_370_955_161 || (val == 1_844_674_407_370_955_161 && d > 5) {
            proof {
                let pre = sb.subrange(digits_lo as int, j as int);
                assert(digits_val(sb.subrange(digits_lo as int, j + 1))
                    == digits_val(pre) * 10 + (b - 48));
                if !over {
                    assert(digits_val(pre) * 10 + (b - 48) >= 0x1_0000_0000_0000_0000int)
                        by (nonlinear_arith)
                        requires
                            digits_val(pre) == val,
                            (val > 1_844_674_407_370_955_161u64) || (val
                                == 1_844_674_407_370_955_161u64 && b - 48 > 5),
                            b >= 48;
                } else {
                    assert(digits_val(pre) * 10 + (b - 48) >= 0x1_0000_0000_0000_0000int)
                        by (nonlinear_arith)
                        requires
                            digits_val(pre) >= 0x1_0000_0000_0000_0000int,
                            b >= 48;
                }
            }
            over = true;
            val = 0;
        } else {
            val = val * 10 + d;
        }
        j = j + 1;
    }
    proof {
        assert(sb.subrange(digits_lo as int, j as int) =~= digits);
    }
    if over {
        return None;
    }
    Some(val)
}

/// Whether a download should split into parallel range requests: the body
/// is over five mebibytes and more than one worker was requested.
pub fn use_multi_stream(total_size: u64, thread_count: u32) -> (r: bool)
    ensures
        r == (total_size > MULTI_STREAM_THRESHOLD_BYTES && thread_count > 1),
{
    total_size > MULTI_STREAM_THRESHOLD_BYTES && thread_count > 1
}

} // verus!
