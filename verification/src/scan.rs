//! Scan-side path normalization.
//!
//! Scanned paths are stored relative to the project root with a single
//! canonical separator: every backslash is replaced by a forward slash,
//! so paths compare equal across host conventions.

use vstd::prelude::*;

verus! {

use vstd::string::StrSliceExecFns;
use vstd::string::StringExecFns;

/// `p` with every backslash replaced by a forward slash.
pub open spec fn normalized_path(p: Seq<char>) -> Seq<char> {
    p.map_values(|c: char| if c == '\\' { '/' } else { c })
}

/// Normalize a root-relative path to the canonical forward-slash form.
pub fn normalize_asset_path(path: &str) -> (r: String)
    ensures
        r@ == normalized_path(path@),
{
    let n = path.unicode_len();
    let mut out = String::new();
    let mut i: usize = 0;
    while i < n
        invariant
            i <= n,
            n == path@.len(),
            out@ == normalized_path(path@.take(i as int)),
        decreases n - i,
    {
        let c = path.get_char(i);
        if c == '\\' {
            out.append("/");
            proof {
                reveal_strlit("/");
            }
        } else {
            let piece = path.substring_char(i, i + 1);
            out.append(piece);
        }
        i = i + 1;
        proof {
            assert(out@ =~= normalized_path(path@.take(i as int)));
        }
    }
    proof {
        assert(path@.take(n as int) =~= path@);
    }
    out
}

} // verus!
