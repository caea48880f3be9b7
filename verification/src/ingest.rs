//! Taking in the files that a card comes in: the archive it is packed in
//! and the list of track names.

use vstd::prelude::*;
use crate::text::{chars_of, ends_with, ends_with_spec, lower_case, lowercased, string_of};

verus! {

/// Whether a file name in lower case ends with `.drf`.
pub open spec fn is_drf_spec(lower_name: Seq<char>) -> bool {
    ends_with_spec(lower_name, seq!['.', 'd', 'r', 'f'])
}

/// Whether an entry name is that of a directory: it ends with a slash.
pub open spec fn is_directory_spec(entry_name: Seq<char>) -> bool {
    ends_with_spec(entry_name, seq!['/'])
}

/// Whether an archive holds exactly one file.
pub fn is_single_file(entries: usize) -> (r: bool)
    ensures
        r == (entries == 1),
{
    entries == 1
}

/// Whether the file name `lower_name`, which is in lower case, ends with
/// `.drf`.
pub fn has_drf_ending(lower_name: &Vec<char>) -> (r: bool)
    ensures
        r == is_drf_spec(lower_name@),
{
    proof {
        assert(['.', 'd', 'r', 'f']@ =~= seq!['.', 'd', 'r', 'f']);
    }
    ends_with(lower_name, &['.', 'd', 'r', 'f'])
}

/// Whether `file_name` names a data file: in lower case it ends with
/// `.drf`.
pub fn is_drf_name(file_name: &str) -> (r: bool)
    ensures
        r == is_drf_spec(lowercased(file_name@)),
{
    let chars = chars_of(file_name);
    let lower = lower_case(&chars);
    has_drf_ending(&lower)
}

/// Whether `entry_name` is the name of a directory in an archive.
pub fn is_directory_name(entry_name: &str) -> (r: bool)
    ensures
        r == is_directory_spec(entry_name@),
{
    let chars = chars_of(entry_name);
    proof {
        assert(['/']@ =~= seq!['/']);
    }
    ends_with(&chars, &['/'])
}

/// How many characters stand before the first comma of `line`; the length
/// of `line` where it has none.
pub open spec fn before_comma(line: Seq<char>) -> int
    decreases line.len(),
{
    if line.len() == 0 || line[0] == ',' {
        0
    } else {
        1 + before_comma(line.drop_first())
    }
}

/// The code and the name that a line of the track list gives: what stands
/// before its first comma and what stands after it. `None` for a line
/// without a comma.
pub open spec fn track_entry_spec(line: Seq<char>) -> Option<(Seq<char>, Seq<char>)> {
    let k = before_comma(line);
    if k < line.len() {
        Some((line.take(k), line.skip(k + 1)))
    } else {
        None
    }
}

proof fn lemma_before_comma(line: Seq<char>, k: int)
    requires
        0 <= k <= line.len(),
        forall|i: int| 0 <= i < k ==> #[trigger] line[i] != ',',
        k == line.len() || line[k] == ',',
    ensures
        before_comma(line) == k,
    decreases k,
{
    if k > 0 {
        let t = line.drop_first();
        assert forall|i: int| 0 <= i < k - 1 implies #[trigger] t[i] != ',' by {
            assert(t[i] == line[i + 1]);
        }
        lemma_before_comma(t, k - 1);
    }
}

/// The views of a code and a name.
pub open spec fn entry_view(entry: Option<(String, String)>) -> Option<(Seq<char>, Seq<char>)> {
    match entry {
        Some(pair) => Some((pair.0@, pair.1@)),
        None => None,
    }
}

/// The code and the name that the line `line` of the track list gives.
pub fn track_entry(line: &str) -> (entry: Option<(String, String)>)
    ensures
        entry_view(entry) == track_entry_spec(line@),
{
    let chars = chars_of(line);
    let n: usize = chars.len();
    let mut k: usize = 0;
    let mut code: Vec<char> = Vec::new();
    while k < n && chars[k] != ','
        invariant
            n == chars@.len(),
            k <= n,
            forall|i: int| 0 <= i < k ==> #[trigger] chars@[i] != ',',
            code@ == chars@.take(k as int),
        decreases n - k,
    {
        code.push(chars[k]);
        proof {
            assert(chars@.take(k as int).push(chars@[k as int]) =~= chars@.take(k + 1));
        }
        k += 1;
    }
    proof {
        lemma_before_comma(chars@, k as int);
    }
    if k == n {
        return None;
    }
    let mut name: Vec<char> = Vec::new();
    let mut i: usize = k + 1;
    while i < n
        invariant
            n == chars@.len(),
            k + 1 <= i <= n,
            name@ == chars@.subrange(k + 1, i as int),
        decreases n - i,
    {
        name.push(chars[i]);
        proof {
            assert(chars@.subrange(k + 1, i as int).push(chars@[i as int]) =~= chars@.subrange(
                k + 1,
                i + 1,
            ));
        }
        i += 1;
    }
    proof {
        assert(chars@.subrange(k + 1, n as int) =~= chars@.skip(k + 1));
    }
    Some((string_of(&code), string_of(&name)))
}

} // verus!
