//! The library scanner's acceptance rules: which files of a music directory
//! become library entries.  The walking and tag reading happen outside; the
//! decision is made here on plain values.

use vstd::prelude::*;

verus! {

/// Smallest accepted file size: one mebibyte.
pub const MIN_MEDIA_FILE_BYTES: i64 = 1_048_576;

/// Shortest accepted track (30 s).
pub const MIN_MEDIA_DURATION_MS: i64 = 30_000;

/// Longest accepted track (two hours).
pub const MAX_MEDIA_DURATION_MS: i64 = 7_200_000;

/// ASCII lower-casing of one byte.
pub open spec fn lower_byte(b: u8) -> u8 {
    if 65 <= b && b <= 90 {
        (b + 32) as u8
    } else {
        b
    }
}

/// ASCII lower-casing of a byte string.
pub open spec fn lower_bytes(s: Seq<u8>) -> Seq<u8> {
    s.map_values(|b: u8| lower_byte(b))
}

/// The file extensions the scanner accepts, lower-cased.
pub open spec fn is_supported_extension(s: Seq<u8>) -> bool {
    let l = lower_bytes(s);
    ||| l == seq![109u8, 112, 51]  // mp3
    ||| l == seq![102u8, 108, 97, 99]  // flac
    ||| l == seq![119u8, 97, 118]  // wav
    ||| l == seq![111u8, 103, 103]  // ogg
    ||| l == seq![109u8, 52, 97]  // m4a
    ||| l == seq![97u8, 97, 99]  // aac
    ||| l == seq![119u8, 101, 98, 109]  // webm
    ||| l == seq![97u8, 105, 102, 102]  // aiff
    ||| l == seq![97u8, 105, 102]  // aif
}

/// Compares the lower-cased `ext` with a candidate extension.
fn ext_eq(ext: &[u8], candidate: &[u8]) -> (r: bool)
    ensures
        r == (lower_bytes(ext@) == candidate@),
{
    if ext.len() != candidate.len() {
        proof {
            assert(lower_bytes(ext@).len() == ext@.len());
        }
        return false;
    }
    let mut i: usize = 0;
    while i < ext.len()
        invariant
            i <= ext@.len() == candidate@.len(),
            forall|k: int| 0 <= k < i ==> lower_byte(#[trigger] ext@[k]) == candidate@[k],
        decreases ext@.len() - i,
    {
        let b = ext[i];
        let lb = if 65 <= b && b <= 90 { b + 32 } else { b };
        proof {
            assert(lb == lower_byte(ext@[i as int]));
        }
        if lb != candidate[i] {
            proof {
                assert(lower_bytes(ext@)[i as int] == lower_byte(ext@[i as int]));
            }
            return false;
        }
        i = i + 1;
    }
    proof {
        assert(lower_bytes(ext@) =~= candidate@);
    }
    true
}

/// Whether a file belongs in the music library: a supported extension
/// (case-insensitive), at least a mebibyte of data, and a duration between
/// thirty seconds and two hours.
pub fn accepts_media_file(extension: &[u8], size_bytes: i64, duration_ms: i64) -> (r: bool)
    ensures
        r == (is_supported_extension(extension@) && size_bytes >= MIN_MEDIA_FILE_BYTES
            && MIN_MEDIA_DURATION_MS <= duration_ms <= MAX_MEDIA_DURATION_MS),
{
    let ext_ok = ext_eq(extension, &[109u8, 112, 51])
        || ext_eq(extension, &[102u8, 108, 97, 99])
        || ext_eq(extension, &[119u8, 97, 118])
        || ext_eq(extension, &[111u8, 103, 103])
        || ext_eq(extension, &[109u8, 52, 97])
        || ext_eq(extension, &[97u8, 97, 99])
        || ext_eq(extension, &[119u8, 101, 98, 109])
        || ext_eq(extension, &[97u8, 105, 102, 102])
        || ext_eq(extension, &[97u8, 105, 102]);
    ext_ok && size_bytes >= MIN_MEDIA_FILE_BYTES && duration_ms >= MIN_MEDIA_DURATION_MS
        && duration_ms <= MAX_MEDIA_DURATION_MS
}

} // verus!
