//! The names of the files that a conversion reads and writes.

use vstd::prelude::*;

verus! {

/// Whether `text` ends with `suffix`.
pub open spec fn ends_with(text: Seq<char>, suffix: Seq<char>) -> bool {
    suffix.len() <= text.len() && text.subrange(text.len() - suffix.len(), text.len() as int)
        == suffix
}

/// `text` without its last `count` characters.
pub open spec fn without_last(text: Seq<char>, count: nat) -> Seq<char> {
    text.subrange(0, text.len() - count)
}

/// The name under which the converted form of an input is stored: the input's
/// name with `.csv` replaced by `.parquet`, or else with `.csv.gz` replaced by
/// it. An input with neither ending has none.
pub open spec fn output_name_of(input: Seq<char>) -> Option<Seq<char>> {
    if ends_with(input, ".csv"@) {
        Some(without_last(input, 4) + ".parquet"@)
    } else if ends_with(input, ".csv.gz"@) {
        Some(without_last(input, 7) + ".parquet"@)
    } else {
        None
    }
}

/// The name under which output is gathered before it takes its final name.
pub open spec fn temp_name_of(output: Seq<char>) -> Seq<char> {
    ".tmp."@ + output
}

/// Whether `text` ends with `suffix`.
pub fn has_suffix(text: &str, suffix: &str) -> (b: bool)
    ensures
        b == ends_with(text@, suffix@),
{
    let n = text.unicode_len();
    let k = suffix.unicode_len();
    if k > n {
        return false;
    }
    let start = n - k;
    let mut i: usize = 0;
    while i < k
        invariant
            i <= k,
            k == suffix@.len(),
            n == text@.len(),
            start == n - k,
            forall|j: int| 0 <= j < i ==> text@[start + j] == suffix@[j],
        decreases k - i,
    {
        if text.get_char(start + i) != suffix.get_char(i) {
            assert(text@.subrange(start as int, n as int)[i as int] != suffix@[i as int]);
            return false;
        }
        i += 1;
    }
    assert(text@.subrange(start as int, n as int) =~= suffix@);
    true
}

/// `text` without `suffix`, where it ends with it.
pub fn strip_suffix(text: &str, suffix: &str) -> (r: Option<String>)
    ensures
        match r {
            Some(stem) => ends_with(text@, suffix@) && stem@ == without_last(
                text@,
                suffix@.len(),
            ),
            None => !ends_with(text@, suffix@),
        },
{
    if has_suffix(text, suffix) {
        let n = text.unicode_len();
        let k = suffix.unicode_len();
        Some(text.substring_char(0, n - k).to_owned())
    } else {
        None
    }
}

/// The name of the output for an input of the given name, where the input's
/// name ends as that of a convertible file does.
pub fn output_basename(input: &str) -> (r: Option<String>)
    ensures
        match r {
            Some(name) => output_name_of(input@) == Some(name@),
            None => output_name_of(input@) is None,
        },
{
    proof {
        reveal_strlit(".csv");
        reveal_strlit(".csv.gz");
    }
    let stem = match strip_suffix(input, ".csv") {
        Some(stem) => stem,
        None => match strip_suffix(input, ".csv.gz") {
            Some(stem) => stem,
            None => {
                return None;
            },
        },
    };
    Some(stem.concat(".parquet"))
}

/// The temporary name that belongs to an output's name.
pub fn temp_basename(output: &str) -> (r: String)
    ensures
        r@ == temp_name_of(output@),
{
    ".tmp.".to_owned().concat(output)
}

/// Whether a file of this name is read through a gzip decoder.
pub fn is_gzip_name(name: &str) -> (b: bool)
    ensures
        b == ends_with(name@, ".gz"@),
{
    has_suffix(name, ".gz")
}

} // verus!
