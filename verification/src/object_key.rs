//! Object-store keys: the local tabular file "./{stem}-output.csv" is stored
//! under "lambda-costs/{stem}.csv".

use vstd::prelude::*;

use crate::text::str_matches_at;

verus! {

/// Whether `pat` occurs in `s` at position `i`.
pub open spec fn match_at(s: Seq<char>, pat: Seq<char>, i: int) -> bool {
    0 <= i && i + pat.len() <= s.len() && s.subrange(i, i + pat.len()) == pat
}

/// First position of `pat` in `s` at or after `i`; -1 when there is none.
pub open spec fn first_match_from(s: Seq<char>, pat: Seq<char>, i: int) -> int
    decreases s.len() + 1 - i
    when 0 <= i
{
    if i + pat.len() > s.len() {
        -1
    } else if s.subrange(i, i + pat.len()) == pat {
        i
    } else {
        first_match_from(s, pat, i + 1)
    }
}

/// Derives the object key from the local file path: everything between the
/// leading "./" and the first "-output.csv" becomes the stem of a key under
/// "lambda-costs/".
pub fn build_object_key_from_csv_path(csv_local_path: &str) -> (r: String)
    requires
        first_match_from(csv_local_path@, "-output.csv"@, 0) >= 2,
    ensures
        r@ == "lambda-costs/"@ + csv_local_path@.subrange(
            2,
            first_match_from(csv_local_path@, "-output.csv"@, 0),
        ) + ".csv"@,
{
    let pat = "-output.csv";
    proof {
        reveal_strlit("-output.csv");
    }
    let plen = pat.unicode_len();
    let len = csv_local_path.unicode_len();
    let ghost fm = first_match_from(csv_local_path@, pat@, 0);
    let mut i: usize = 0;
    while i + plen <= len
        invariant
            0 <= i <= len,
            len == csv_local_path@.len(),
            plen == pat@.len(),
            pat@ == "-output.csv"@,
            fm == first_match_from(csv_local_path@, pat@, 0),
            fm == first_match_from(csv_local_path@, pat@, i as int),
            fm >= 2,
            plen >= 1,
        decreases len - i,
    {
        if str_matches_at(csv_local_path, i, pat) {
            let stem = csv_local_path.substring_char(2, i);
            let r = "lambda-costs/".to_owned().concat(stem).concat(".csv");
            proof {
                assert(fm == i);
                assert(r@ =~= "lambda-costs/"@ + csv_local_path@.subrange(2, fm) + ".csv"@);
            }
            return r;
        }
        i = i + 1;
    }
    proof {
        assert(first_match_from(csv_local_path@, pat@, i as int) == -1);
        assert(false);
    }
    String::new()
}

} // verus!
