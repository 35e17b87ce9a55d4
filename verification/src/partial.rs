use vstd::prelude::*;

use crate::util::{add_path_extension, dec_rep, spec_add_path_extension, u64_to_string};

verus! {

/// The name of segment `num`'s part file: the download's target path with
/// `part<num>` appended as a further extension.
pub open spec fn spec_part_path(path: Seq<char>, num: u64) -> Seq<char> {
    spec_add_path_extension(path, seq!['p', 'a', 'r', 't'] + dec_rep(num as int))
}

/// Compute the part-file name for segment `num` of the download at `path`.
/// The name is a pure function of the two, so a resumed run recovers every
/// part file with no other stored state.
pub fn add_part_extension(path: &str, num: u64) -> (r: String)
    ensures
        r@ == spec_part_path(path@, num),
{
    let mut suffix = String::from_str("part");
    let digits = u64_to_string(num);
    suffix.append(digits.as_str());
    proof {
        reveal_strlit("part");
        assert(suffix@ =~= seq!['p', 'a', 'r', 't'] + dec_rep(num as int));
    }
    add_path_extension(path, suffix.as_str())
}

} // verus!
