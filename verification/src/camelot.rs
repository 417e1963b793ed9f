//! Camelot-wheel key notation: mapping tonal keys to the DJ-friendly wheel,
//! parsing the `<num><letter>` notation, harmonic compatibility, and the
//! semitone distance used for pitch-shift planning.

use vstd::prelude::*;
use vstd::string::StringSliceAdditionalSpecFns;

verus! {

/// ASCII whitespace bytes, as trimmed from both ends of a key string.
pub open spec fn is_ws(b: u8) -> bool {
    b == 32 || (9 <= b && b <= 13)
}

/// The input with leading whitespace bytes removed.
pub open spec fn ltrim(s: Seq<u8>) -> Seq<u8>
    decreases s.len(),
{
    if s.len() > 0 && is_ws(s[0]) {
        ltrim(s.drop_first())
    } else {
        s
    }
}

/// The input with trailing whitespace bytes removed.
pub open spec fn rtrim(s: Seq<u8>) -> Seq<u8>
    decreases s.len(),
{
    if s.len() > 0 && is_ws(s.last()) {
        rtrim(s.drop_last())
    } else {
        s
    }
}

/// The input with whitespace removed from both ends.
pub open spec fn trim(s: Seq<u8>) -> Seq<u8> {
    rtrim(ltrim(s))
}

pub open spec fn is_digit(b: u8) -> bool {
    48 <= b && b <= 57
}

pub open spec fn all_digits(s: Seq<u8>) -> bool {
    forall|i: int| 0 <= i < s.len() ==> is_digit(#[trigger] s[i])
}

/// Value of a non-empty all-digit byte string, most significant digit first.
pub open spec fn digits_val(s: Seq<u8>) -> int
    decreases s.len(),
{
    if s.len() == 0 {
        0
    } else {
        digits_val(s.drop_last()) * 10 + (s.last() - 48)
    }
}

/// Integer parsing as the wheel accepts it: an optional sign followed by at
/// least one decimal digit and nothing else.
pub open spec fn parse_int(s: Seq<u8>) -> Option<int> {
    if s.len() == 0 {
        None
    } else if s[0] == 43 || s[0] == 45 {
        let rest = s.drop_first();
        if rest.len() == 0 || !all_digits(rest) {
            None
        } else if s[0] == 45 {
            Some(-digits_val(rest))
        } else {
            Some(digits_val(rest))
        }
    } else if all_digits(s) {
        Some(digits_val(s))
    } else {
        None
    }
}

/// Upper-cases the two letter bytes the wheel uses.
pub open spec fn upper_letter(b: u8) -> u8 {
    if b == 97 || b == 98 {
        (b - 32) as u8
    } else {
        b
    }
}

/// Parsed form of a Camelot key string: wheel number 1..=12 and letter
/// 'A' (minor) or 'B' (major).  Bytes are trimmed, the last byte is the
/// letter, and the rest (trimmed again) is the number.
pub open spec fn parse_camelot_spec(s: Seq<u8>) -> Option<(int, char)> {
    let t = trim(s);
    if t.len() < 2 {
        None
    } else {
        let letter = upper_letter(t.last());
        if letter != 65 && letter != 66 {
            None
        } else {
            let num_part = trim(t.drop_last());
            match parse_int(num_part) {
                Some(n) => if 1 <= n && n <= 12 {
                    Some((n, if letter == 65 { 'A' } else { 'B' }))
                } else {
                    None
                },
                None => None,
            }
        }
    }
}

/// Wheel number for a pitch-class root under the given mode
/// (0 = major, 1 = minor).
pub open spec fn camelot_num_of(root: int, mode: int) -> int {
    let majors = seq![8int, 3, 10, 5, 12, 7, 2, 9, 4, 11, 6, 1];
    let minors = seq![5int, 12, 7, 2, 9, 4, 11, 6, 1, 8, 3, 10];
    if mode == 0 {
        majors[root]
    } else {
        minors[root]
    }
}

pub open spec fn digit_char(d: int) -> char {
    if d == 0 { '0' }
    else if d == 1 { '1' }
    else if d == 2 { '2' }
    else if d == 3 { '3' }
    else if d == 4 { '4' }
    else if d == 5 { '5' }
    else if d == 6 { '6' }
    else if d == 7 { '7' }
    else if d == 8 { '8' }
    else { '9' }
}

/// Canonical `<num><letter>` text for a root and mode.
pub open spec fn camelot_str_of(root: int, mode: int) -> Seq<char> {
    let num = camelot_num_of(root, mode);
    let letter: char = if mode == 0 { 'B' } else { 'A' };
    if num < 10 {
        seq![digit_char(num), letter]
    } else {
        seq!['1', digit_char(num - 10), letter]
    }
}

/// Camelot notation for a detected key: `None` unless the root is a pitch
/// class 0..=11 and the mode is 0 (major) or 1 (minor).
pub fn get_camelot_key(root: i32, mode: i32) -> (r: Option<String>)
    ensures
        r is Some <==> (0 <= root <= 11 && (mode == 0 || mode == 1)),
        r is Some ==> r->0@ == camelot_str_of(root as int, mode as int),
{
    if root < 0 || root > 11 {
        return None;
    }
    if mode != 0 && mode != 1 {
        return None;
    }
    let ghost want = camelot_str_of(root as int, mode as int);
    let s: &str = match (mode, root) {
        (0i32, 0i32) => { proof { reveal_strlit("8B"); assert("8B"@ =~= want); } "8B" },
        (0i32, 1i32) => { proof { reveal_strlit("3B"); assert("3B"@ =~= want); } "3B" },
        (0i32, 2i32) => { proof { reveal_strlit("10B"); assert("10B"@ =~= want); } "10B" },
        (0i32, 3i32) => { proof { reveal_strlit("5B"); assert("5B"@ =~= want); } "5B" },
        (0i32, 4i32) => { proof { reveal_strlit("12B"); assert("12B"@ =~= want); } "12B" },
        (0i32, 5i32) => { proof { reveal_strlit("7B"); assert("7B"@ =~= want); } "7B" },
        (0i32, 6i32) => { proof { reveal_strlit("2B"); assert("2B"@ =~= want); } "2B" },
        (0i32, 7i32) => { proof { reveal_strlit("9B"); assert("9B"@ =~= want); } "9B" },
        (0i32, 8i32) => { proof { reveal_strlit("4B"); assert("4B"@ =~= want); } "4B" },
        (0i32, 9i32) => { proof { reveal_strlit("11B"); assert("11B"@ =~= want); } "11B" },
        (0i32, 10i32) => { proof { reveal_strlit("6B"); assert("6B"@ =~= want); } "6B" },
        (0i32, _) => { proof { reveal_strlit("1B"); assert("1B"@ =~= want); } "1B" },
        (_, 0i32) => { proof { reveal_strlit("5A"); assert("5A"@ =~= want); } "5A" },
        (_, 1i32) => { proof { reveal_strlit("12A"); assert("12A"@ =~= want); } "12A" },
        (_, 2i32) => { proof { reveal_strlit("7A"); assert("7A"@ =~= want); } "7A" },
        (_, 3i32) => { proof { reveal_strlit("2A"); assert("2A"@ =~= want); } "2A" },
        (_, 4i32) => { proof { reveal_strlit("9A"); assert("9A"@ =~= want); } "9A" },
        (_, 5i32) => { proof { reveal_strlit("4A"); assert("4A"@ =~= want); } "4A" },
        (_, 6i32) => { proof { reveal_strlit("11A"); assert("11A"@ =~= want); } "11A" },
        (_, 7i32) => { proof { reveal_strlit("6A"); assert("6A"@ =~= want); } "6A" },
        (_, 8i32) => { proof { reveal_strlit("1A"); assert("1A"@ =~= want); } "1A" },
        (_, 9i32) => { proof { reveal_strlit("8A"); assert("8A"@ =~= want); } "8A" },
        (_, 10i32) => { proof { reveal_strlit("3A"); assert("3A"@ =~= want); } "3A" },
        (_, _) => { proof { reveal_strlit("10A"); assert("10A"@ =~= want); } "10A" },
    };
    Some(s.to_owned())
}

/// First index of `s` that holds a non-whitespace byte (or `s.len()`).
fn find_trim_start(s: &[u8]) -> (lo: usize)
    ensures
        lo <= s@.len(),
        forall|k: int| 0 <= k < lo ==> is_ws(#[trigger] s@[k]),
        lo < s@.len() ==> !is_ws(s@[lo as int]),
{
    let mut lo: usize = 0;
    while lo < s.len() && is_ws_exec(s[lo])
        invariant
            lo <= s@.len(),
            forall|k: int| 0 <= k < lo ==> is_ws(#[trigger] s@[k]),
        decreases s@.len() - lo,
    {
        lo = lo + 1;
    }
    lo
}

/// One-past the last index of `s` that holds a non-whitespace byte, looking
/// only at `s[..hi0]`.
fn find_trim_end(s: &[u8], hi0: usize) -> (hi: usize)
    requires
        hi0 <= s@.len(),
    ensures
        hi <= hi0,
        forall|k: int| hi <= k < hi0 ==> is_ws(#[trigger] s@[k]),
        hi > 0 ==> !is_ws(s@[hi - 1]),
{
    let mut hi: usize = hi0;
    while hi > 0 && is_ws_exec(s[hi - 1])
        invariant
            hi <= hi0 <= s@.len(),
            forall|k: int| hi <= k < hi0 ==> is_ws(#[trigger] s@[k]),
        decreases hi,
    {
        hi = hi - 1;
    }
    hi
}

fn is_ws_exec(b: u8) -> (r: bool)
    ensures
        r == is_ws(b),
{
    b == 32 || (9 <= b && b <= 13)
}

proof fn lemma_ltrim_prefix(s: Seq<u8>, lo: int)
    requires
        0 <= lo <= s.len(),
        forall|k: int| 0 <= k < lo ==> is_ws(#[trigger] s[k]),
        lo < s.len() ==> !is_ws(s[lo]),
    ensures
        ltrim(s) =~= s.subrange(lo, s.len() as int),
    decreases lo,
{
    if lo == 0 {
        if s.len() > 0 && is_ws(s[0]) {
            assert(false);
        }
        assert(ltrim(s) =~= s.subrange(0, s.len() as int));
    } else {
        let s1 = s.drop_first();
        assert(is_ws(s[0]));
        assert(forall|k: int| 0 <= k < lo - 1 ==> is_ws(#[trigger] s1[k]));
        lemma_ltrim_prefix(s1, lo - 1);
        assert(s1.subrange(lo - 1, s1.len() as int) =~= s.subrange(lo, s.len() as int));
    }
}

proof fn lemma_rtrim_suffix(s: Seq<u8>, hi: int)
    requires
        0 <= hi <= s.len(),
        forall|k: int| hi <= k < s.len() ==> is_ws(#[trigger] s[k]),
        hi > 0 ==> !is_ws(s[hi - 1]),
    ensures
        rtrim(s) =~= s.subrange(0, hi),
    decreases s.len(),
{
    if hi == s.len() {
        if s.len() > 0 && is_ws(s.last()) {
            assert(false);
        }
        assert(rtrim(s) =~= s.subrange(0, hi));
    } else {
        let s1 = s.drop_last();
        assert(is_ws(s.last()));
        lemma_rtrim_suffix(s1, hi);
        assert(s1.subrange(0, hi) =~= s.subrange(0, hi));
    }
}

pub proof fn lemma_digits_val_nonneg_pub(s: Seq<u8>)
    requires
        all_digits(s),
    ensures
        digits_val(s) >= 0,
    decreases s.len(),
{
    if s.len() > 0 {
        assert(forall|i: int| 0 <= i < s.len() - 1 ==> is_digit(#[trigger] s.drop_last()[i]));
        lemma_digits_val_nonneg_pub(s.drop_last());
    }
}

/// Trims `s` in place: returns `(lo, hi)` such that `s[lo..hi]` is `trim(s@)`.
fn trim_indices(s: &[u8]) -> (r: (usize, usize))
    ensures
        r.0 <= r.1 <= s@.len(),
        s@.subrange(r.0 as int, r.1 as int) =~= trim(s@),
{
    let lo = find_trim_start(s);
    let hi = find_trim_end(s, s.len());
    proof {
        lemma_ltrim_prefix(s@, lo as int);
    }
    if hi <= lo {
        // Everything from lo on is whitespace, so the trimmed form is empty.
        proof {
            let lt = s@.subrange(lo as int, s@.len() as int);
            assert(forall|k: int| 0 <= k < lt.len() ==> is_ws(#[trigger] lt[k]));
            lemma_rtrim_suffix(lt, 0);
            assert(s@.subrange(lo as int, lo as int) =~= trim(s@));
        }
        (lo, lo)
    } else {
        proof {
            let lt = s@.subrange(lo as int, s@.len() as int);
            assert(forall|k: int| hi - lo <= k < lt.len() ==> is_ws(#[trigger] lt[k]));
            assert(!is_ws(lt[hi - lo - 1]));
            lemma_rtrim_suffix(lt, hi - lo);
            assert(lt.subrange(0, hi - lo) =~= s@.subrange(lo as int, hi as int));
        }
        (lo, hi)
    }
}

/// Parses Camelot notation such as `"8B"` or `" 10a "`: the wheel number
/// 1..=12 and the letter, upper-cased.  Returns `None` on anything else.
#[verifier::rlimit(60)]
pub fn parse_camelot(key: &str) -> (r: Option<(i32, char)>)
    ensures
        r is Some <==> parse_camelot_spec(key.spec_bytes()) is Some,
        r is Some ==> parse_camelot_spec(key.spec_bytes()) == Some(((r->0).0 as int, (r->0).1)),
{
    let bytes = key.as_bytes();
    let ghost sb = key.spec_bytes();
    assert(bytes@ == sb);
    let (lo, hi) = trim_indices(bytes);
    let ghost t = trim(sb);
    if hi - lo < 2 {
        return None;
    }
    let letter_b = bytes[hi - 1];
    assert(letter_b == t.last());
    let letter = if letter_b == 97 || letter_b == 98 { letter_b - 32 } else { letter_b };
    assert(letter == upper_letter(t.last()));
    if letter != 65 && letter != 66 {
        return None;
    }
    // The number part is the trimmed bytes before the letter, trimmed again.
    let lo2 = find_trim_start_from(bytes, lo, hi - 1);
    let mut hi2 = find_trim_end_from(bytes, lo, hi - 1);
    proof {
        let np0 = t.drop_last();
        assert(np0 =~= sb.subrange(lo as int, hi - 1));
        lemma_ltrim_prefix(np0, lo2 - lo);
        if hi2 <= lo2 {
            let lt = np0.subrange(lo2 - lo, np0.len() as int);
            assert(forall|k: int| 0 <= k < lt.len() ==> is_ws(#[trigger] lt[k]));
            lemma_rtrim_suffix(lt, 0);
            assert(trim(np0) =~= sb.subrange(lo2 as int, lo2 as int));
        } else {
            let lt = np0.subrange(lo2 - lo, np0.len() as int);
            assert(forall|k: int| hi2 - lo2 <= k < lt.len() ==> is_ws(#[trigger] lt[k]));
            assert(!is_ws(lt[hi2 - lo2 - 1]));
            lemma_rtrim_suffix(lt, hi2 - lo2);
            assert(lt.subrange(0, hi2 - lo2) =~= sb.subrange(lo2 as int, hi2 as int));
        }
    }
    if hi2 <= lo2 {
        hi2 = lo2;
    }
    let ghost np = trim(t.drop_last());
    assert(np =~= sb.subrange(lo2 as int, hi2 as int));
    if lo2 == hi2 {
        return None;
    }
    // Optional sign: '+' is skipped, '-' can never reach the 1..=12 range.
    let first = bytes[lo2];
    assert(first == np[0]);
    if first == 45 {
        proof {
            let rest = np.drop_first();
            if rest.len() > 0 && all_digits(rest) {
                lemma_digits_val_nonneg_pub(rest);
            }
        }
        return None;
    }
    let digits_lo = if first == 43 { lo2 + 1 } else { lo2 };
    let ghost dseq = sb.subrange(digits_lo as int, hi2 as int);
    proof {
        if first == 43 {
            assert(np.drop_first() =~= dseq);
        } else {
            assert(np =~= dseq);
        }
    }
    if digits_lo == hi2 {
        return None;
    }
    let ghost spec_r = parse_camelot_spec(sb);
    proof {
        // With the trimming and the letter settled, the result depends only on
        // the digit run.
        assert(spec_r == (if all_digits(dseq) && 1 <= digits_val(dseq) <= 12 {
            Some((digits_val(dseq), if letter == 65 { 'A' } else { 'B' }))
        } else {
            Option::<(int, char)>::None
        }));
    }
    // Saturating decimal accumulation: values above 12 are all alike.
    let mut val: u64 = 0;
    let mut i: usize = digits_lo;
    while i < hi2
        invariant
            digits_lo <= i <= hi2 <= sb.len(),
            bytes@ == sb,
            dseq == sb.subrange(digits_lo as int, hi2 as int),
            dseq.len() > 0,
            sb == key.spec_bytes(),
            spec_r == parse_camelot_spec(sb),
            letter == 65 || letter == 66,
            spec_r == (if all_digits(dseq) && 1 <= digits_val(dseq) <= 12 {
                Some((digits_val(dseq), if letter == 65 { 'A' } else { 'B' }))
            } else {
                Option::<(int, char)>::None
            }),
            all_digits(sb.subrange(digits_lo as int, i as int)),
            val <= 13,
            digits_val(sb.subrange(digits_lo as int, i as int)) <= 12 ==>
                val == digits_val(sb.subrange(digits_lo as int, i as int)),
            digits_val(sb.subrange(digits_lo as int, i as int)) > 12 ==> val == 13,
        decreases hi2 - i,
    {
        let b = bytes[i];
        if b < 48 || b > 57 {
            proof {
                assert(dseq[i - digits_lo] == b);
                assert(!all_digits(dseq));
            }
            return None;
        }
        proof {
            let pre = sb.subrange(digits_lo as int, i as int);
            let pre1 = sb.subrange(digits_lo as int, i + 1);
            assert(pre1.drop_last() =~= pre);
            assert(pre1.last() == b);
        }
        let d = (b - 48) as u64;
        val = if val * 10 + d > 12 { 13 } else { val * 10 + d };
        i = i + 1;
    }
    proof {
        assert(sb.subrange(digits_lo as int, i as int) =~= dseq);
    }
    if val < 1 || val > 12 {
        return None;
    }
    let n = val as i32;
    let c = if letter == 65 { 'A' } else { 'B' };
    Some((n, c))
}

pub open spec fn abs_int(x: int) -> int {
    if x >= 0 { x } else { -x }
}

/// Two keys are harmonically compatible when the texts are equal, the wheel
/// numbers are equal, or the numbers are wheel neighbours with the same
/// letter.
pub open spec fn camelot_compatible_spec(a: Seq<u8>, b: Seq<u8>) -> bool {
    if a == b {
        true
    } else {
        match (parse_camelot_spec(a), parse_camelot_spec(b)) {
            (Some(pa), Some(pb)) => {
                let diff = abs_int(pa.0 - pb.0);
                pa.0 == pb.0 || ((diff == 1 || diff == 11) && pa.1 == pb.1)
            },
            _ => false,
        }
    }
}

fn bytes_eq(x: &[u8], y: &[u8]) -> (r: bool)
    ensures
        r == (x@ == y@),
{
    if x.len() != y.len() {
        return false;
    }
    let mut i: usize = 0;
    while i < x.len()
        invariant
            i <= x@.len() == y@.len(),
            forall|k: int| 0 <= k < i ==> x@[k] == y@[k],
        decreases x@.len() - i,
    {
        if x[i] != y[i] {
            return false;
        }
        i = i + 1;
    }
    proof {
        assert(x@ =~= y@);
    }
    true
}

/// Whether two Camelot key strings may be mixed into one another.
pub fn is_camelot_compatible(key_a: &str, key_b: &str) -> (r: bool)
    ensures
        r == camelot_compatible_spec(key_a.spec_bytes(), key_b.spec_bytes()),
{
    if bytes_eq(key_a.as_bytes(), key_b.as_bytes()) {
        return true;
    }
    let pa = match parse_camelot(key_a) {
        Some(p) => p,
        None => { return false; },
    };
    let pb = match parse_camelot(key_b) {
        Some(p) => p,
        None => { return false; },
    };
    if pa.0 == pb.0 {
        return true;
    }
    let diff = if pa.0 >= pb.0 { pa.0 - pb.0 } else { pb.0 - pa.0 };
    (diff == 1 || diff == 11) && pa.1 == pb.1
}

proof fn lemma_encode_ascii_char(c: char)
    requires
        c as u32 <= 0x7F,
    ensures
        vstd::utf8::encode_scalar(c as u32) =~= seq![c as u8],
{
    let v = c as u32;
    assert((v & 0x7F) == v) by (bit_vector)
        requires v <= 0x7F;
    assert((v & 0x7F) as u8 == c as u8);
}

proof fn lemma_encode_ascii_seq(s: Seq<char>)
    requires
        forall|i: int| 0 <= i < s.len() ==> #[trigger] s[i] as u32 <= 0x7F,
    ensures
        vstd::utf8::encode_utf8(s) =~= s.map_values(|c: char| c as u8),
    decreases s.len(),
{
    if s.len() > 0 {
        lemma_encode_ascii_char(s[0]);
        assert(forall|i: int| 0 <= i < s.drop_first().len()
            ==> #[trigger] s.drop_first()[i] as u32 <= 0x7F);
        lemma_encode_ascii_seq(s.drop_first());
        assert(vstd::utf8::encode_utf8(s) =~= seq![s[0] as u8]
            + s.drop_first().map_values(|c: char| c as u8));
        assert(seq![s[0] as u8] + s.drop_first().map_values(|c: char| c as u8)
            =~= s.map_values(|c: char| c as u8));
    } else {
        assert(vstd::utf8::encode_utf8(s) =~= Seq::<u8>::empty());
        assert(s.map_values(|c: char| c as u8) =~= Seq::<u8>::empty());
    }
}

/// Law: the canonical text of a wheel position parses back to that
/// position.
pub proof fn lemma_camelot_roundtrip(root: int, mode: int)
    requires
        0 <= root <= 11,
        mode == 0 || mode == 1,
    ensures
        parse_camelot_spec(vstd::utf8::encode_utf8(camelot_str_of(root, mode)))
            == Some((camelot_num_of(root, mode), if mode == 0 { 'B' } else { 'A' })),
{
    let chars = camelot_str_of(root, mode);
    let num = camelot_num_of(root, mode);
    assert(1 <= num <= 12);
    assert(forall|i: int| 0 <= i < chars.len() ==> #[trigger] chars[i] as u32 <= 0x7F);
    lemma_encode_ascii_seq(chars);
    let bytes = vstd::utf8::encode_utf8(chars);
    assert(bytes =~= chars.map_values(|c: char| c as u8));
    // No byte of the text is whitespace, so trimming changes nothing.
    assert(trim(bytes) =~= bytes) by {
        assert(!is_ws(bytes[0]));
        assert(ltrim(bytes) =~= bytes);
        assert(!is_ws(bytes.last()));
        assert(rtrim(bytes) =~= bytes);
    }
    let t = trim(bytes);
    let np = trim(t.drop_last());
    assert(np =~= t.drop_last()) by {
        assert(!is_ws(t.drop_last()[0]));
        assert(ltrim(t.drop_last()) =~= t.drop_last());
        assert(!is_ws(t.drop_last().last()));
        assert(rtrim(t.drop_last()) =~= t.drop_last());
    }
    assert('0' as u8 == 48 && '1' as u8 == 49 && '2' as u8 == 50 && '3' as u8 == 51
        && '4' as u8 == 52 && '5' as u8 == 53 && '6' as u8 == 54 && '7' as u8 == 55
        && '8' as u8 == 56 && '9' as u8 == 57);
    assert(digits_val(Seq::<u8>::empty()) == 0);
    if num < 10 {
        assert(digit_char(num) as u8 == num + 48);
        assert(np =~= seq![(digit_char(num)) as u8]);
        assert(np.drop_last() =~= Seq::<u8>::empty());
        assert(digits_val(np) == digits_val(np.drop_last()) * 10 + (np.last() - 48));
        assert(digits_val(np) == num);
        assert(all_digits(np));
    } else {
        assert(digit_char(num - 10) as u8 == num - 10 + 48);
        assert(np =~= seq!['1' as u8, (digit_char(num - 10)) as u8]);
        assert(np.drop_last() =~= seq!['1' as u8]);
        assert(np.drop_last().drop_last() =~= Seq::<u8>::empty());
        assert(digits_val(np.drop_last())
            == digits_val(np.drop_last().drop_last()) * 10 + (np.drop_last().last() - 48));
        assert(digits_val(np.drop_last()) == 1);
        assert(digits_val(np) == digits_val(np.drop_last()) * 10 + (np.last() - 48));
        assert(digits_val(np) == num);
        assert(all_digits(np));
    }
    assert(parse_int(np) == Some(num));
}

/// Law: a key always mixes with itself.
pub proof fn lemma_compatible_reflexive(a: Seq<u8>)
    ensures
        camelot_compatible_spec(a, a),
{
}

/// Law: compatibility does not depend on the order of the two keys.
pub proof fn lemma_compatible_symmetric(a: Seq<u8>, b: Seq<u8>)
    ensures
        camelot_compatible_spec(a, b) == camelot_compatible_spec(b, a),
{
}

/// Pitch class (0 = C) of the key a wheel position names.
pub open spec fn camelot_base_spec(num: int) -> int {
    if num == 8 { 0 }
    else if num == 9 { 7 }
    else if num == 10 { 2 }
    else if num == 11 { 9 }
    else if num == 12 { 4 }
    else if num == 1 { 11 }
    else if num == 2 { 6 }
    else if num == 3 { 1 }
    else if num == 4 { 8 }
    else if num == 5 { 3 }
    else if num == 6 { 10 }
    else if num == 7 { 5 }
    else { 0 }
}

pub open spec fn camelot_to_semitone_spec(num: int, mode: char) -> int {
    let base = camelot_base_spec(num);
    if mode == 'A' { (base + 9) % 12 } else { base }
}

/// Pitch class of a wheel position; positions outside 1..=12 fall back to C.
pub fn camelot_to_semitone(num: i32, mode: char) -> (r: i32)
    ensures
        r == camelot_to_semitone_spec(num as int, mode),
{
    let base: i32 = match num {
        8 => 0,
        9 => 7,
        10 => 2,
        11 => 9,
        12 => 4,
        1 => 11,
        2 => 6,
        3 => 1,
        4 => 8,
        5 => 3,
        6 => 10,
        7 => 5,
        _ => 0,
    };
    if mode == 'A' {
        (base + 9) % 12
    } else {
        base
    }
}

pub open spec fn opt_bytes(o: Option<&str>) -> Option<Seq<u8>> {
    match o {
        Some(s) => Some(s.spec_bytes()),
        None => None,
    }
}

/// Wheel distance and signed pitch shift between two optional keys.
/// Unknown or unparseable keys count as maximally distant.
pub open spec fn key_distance_spec(a: Option<Seq<u8>>, b: Option<Seq<u8>>) -> (int, int) {
    match (a, b) {
        (Some(ka), Some(kb)) => match (parse_camelot_spec(ka), parse_camelot_spec(kb)) {
            (Some(pa), Some(pb)) => {
                if pa.0 == pb.0 && pa.1 == pb.1 {
                    (0int, 0int)
                } else {
                    let diff = abs_int(pa.0 - pb.0);
                    let circle = if diff <= 12 - diff { diff } else { 12 - diff };
                    if circle <= 1 && pa.1 == pb.1 {
                        (1int, 0int)
                    } else {
                        let sa = camelot_to_semitone_spec(pa.0, pa.1);
                        let sb = camelot_to_semitone_spec(pb.0, pb.1);
                        let shift = sa - sb;
                        let norm = if shift > 6 { shift - 12 } else if shift < -6 { shift + 12 } else { shift };
                        (circle, norm)
                    }
                }
            },
            _ => (100int, 0int),
        },
        _ => (100int, 0int),
    }
}

/// Wheel distance and the shortest signed semitone shift from `key_b`'s root
/// up to `key_a`'s, for pitch-shift planning.
pub fn calc_key_distance(key_a: Option<&str>, key_b: Option<&str>) -> (r: (i32, i32))
    ensures
        (r.0 as int, r.1 as int) == key_distance_spec(opt_bytes(key_a), opt_bytes(key_b)),
        -6 <= r.1 <= 6,
{
    let (ka, kb) = match (key_a, key_b) {
        (Some(ka), Some(kb)) => (ka, kb),
        _ => { return (100, 0); },
    };
    let pa = match parse_camelot(ka) {
        Some(p) => p,
        None => { return (100, 0); },
    };
    let pb = match parse_camelot(kb) {
        Some(p) => p,
        None => { return (100, 0); },
    };
    if pa.0 == pb.0 && pa.1 == pb.1 {
        return (0, 0);
    }
    let diff = if pa.0 >= pb.0 { pa.0 - pb.0 } else { pb.0 - pa.0 };
    let circle = if diff <= 12 - diff { diff } else { 12 - diff };
    if circle <= 1 && pa.1 == pb.1 {
        return (1, 0);
    }
    let sa = camelot_to_semitone(pa.0, pa.1);
    let sb = camelot_to_semitone(pb.0, pb.1);
    let shift = sa - sb;
    let norm = if shift > 6 { shift - 12 } else if shift < -6 { shift + 12 } else { shift };
    (circle, norm)
}

/// First non-whitespace index in `s[from..to]` (or `to`).
fn find_trim_start_from(s: &[u8], from: usize, to: usize) -> (lo: usize)
    requires
        from <= to <= s@.len(),
    ensures
        from <= lo <= to,
        forall|k: int| from <= k < lo ==> is_ws(#[trigger] s@[k]),
        lo < to ==> !is_ws(s@[lo as int]),
{
    let mut lo: usize = from;
    while lo < to && is_ws_exec(s[lo])
        invariant
            from <= lo <= to <= s@.len(),
            forall|k: int| from <= k < lo ==> is_ws(#[trigger] s@[k]),
        decreases to - lo,
    {
        lo = lo + 1;
    }
    lo
}

/// One-past the last non-whitespace index in `s[from..to]` (or `from`).
fn find_trim_end_from(s: &[u8], from: usize, to: usize) -> (hi: usize)
    requires
        from <= to <= s@.len(),
    ensures
        from <= hi <= to,
        forall|k: int| hi <= k < to ==> is_ws(#[trigger] s@[k]),
        hi > from ==> !is_ws(s@[hi - 1]),
{
    let mut hi: usize = to;
    while hi > from && is_ws_exec(s[hi - 1])
        invariant
            from <= hi <= to <= s@.len(),
            forall|k: int| hi <= k < to ==> is_ws(#[trigger] s@[k]),
        decreases hi,
    {
        hi = hi - 1;
    }
    hi
}

} // verus!
