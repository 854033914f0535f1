//! Run configuration handed to the crawler at startup.

use vstd::prelude::*;

use vstd::string::StrSliceExecFns;

verus! {

/// Startup configuration: the API credentials to rotate through, the
/// directory that holds the checkpoint and output files, and an optional
/// wall-clock budget in seconds for the whole run.
pub struct Config {
    pub github_token: Vec<String>,
    pub data_dir: String,
    pub timeout: Option<u64>,
}

/// The parts rejoined with commas.
pub open spec fn joined(parts: Seq<String>) -> Seq<char>
    decreases parts.len(),
{
    if parts.len() == 0 {
        Seq::empty()
    } else if parts.len() == 1 {
        parts[0]@
    } else {
        joined(parts.drop_last()) + seq![','] + parts.last()@
    }
}

pub open spec fn has_comma(s: Seq<char>) -> bool {
    exists|i: int| 0 <= i < s.len() && s[i] == ','
}

/// Splits a comma-separated credential list into its entries. The entries
/// rejoined with commas give back the input and none contains a comma,
/// which determines the split completely; consecutive or trailing commas
/// yield empty entries, as the environment was written.
pub fn split_tokens(s: &str) -> (parts: Vec<String>)
    ensures
        joined(parts@) == s@,
        forall|k: int| 0 <= k < parts@.len() ==> !has_comma((#[trigger] parts@[k])@),
        parts@.len() >= 1,
{
    let n = s.unicode_len();
    let mut parts: Vec<String> = Vec::new();
    let mut start: usize = 0;
    let mut i: usize = 0;
    while i < n
        invariant
            s@.len() == n,
            start <= i <= n,
            parts@.len() == 0 ==> start == 0,
            parts@.len() > 0 ==> 1 <= start && joined(parts@) == s@.take(start - 1) && s@[start
                - 1] == ',',
            forall|k: int| 0 <= k < parts@.len() ==> !has_comma((#[trigger] parts@[k])@),
            forall|k: int| start <= k < i ==> s@[k] != ',',
        decreases n - i,
    {
        let c = s.get_char(i);
        if c == ',' {
            let piece = s.substring_char(start, i).to_owned();
            proof {
                assert(piece@ == s@.subrange(start as int, i as int));
                assert forall|k: int| 0 <= k < piece@.len() implies (#[trigger] piece@[k])
                    != ',' by {
                    assert(piece@[k] == s@[start + k]);
                }
                assert(!has_comma(piece@));
            }
            let ghost parts_pre = parts@;
            parts.push(piece);
            proof {
                if parts_pre.len() == 0 {
                    assert(joined(parts@) == piece@);
                    assert(piece@ =~= s@.take(i as int));
                } else {
                    assert(parts@.drop_last() =~= parts_pre);
                    assert(joined(parts@) == joined(parts_pre) + seq![','] + piece@);
                    assert(joined(parts_pre) + seq![','] + piece@ =~= s@.take(i as int));
                }
            }
            start = i + 1;
        }
        i = i + 1;
    }
    let piece = s.substring_char(start, n).to_owned();
    proof {
        assert(piece@ == s@.subrange(start as int, n as int));
        assert forall|k: int| 0 <= k < piece@.len() implies (#[trigger] piece@[k]) != ',' by {
            assert(piece@[k] == s@[start + k]);
        }
        assert(!has_comma(piece@));
    }
    let ghost parts_pre = parts@;
    parts.push(piece);
    proof {
        if parts_pre.len() == 0 {
            assert(joined(parts@) == piece@);
            assert(piece@ =~= s@);
        } else {
            assert(parts@.drop_last() =~= parts_pre);
            assert(joined(parts@) == joined(parts_pre) + seq![','] + piece@);
            assert(joined(parts_pre) + seq![','] + piece@ =~= s@);
        }
    }
    parts
}

} // verus!
