//! Trimming error text before it reaches a client: everything from the
//! first backtrace marker on is cut away.

use vstd::prelude::*;
use vstd::string::StrSliceExecFns;

verus! {

/// Whether the backtrace marker starts at position `i` of the text.
pub open spec fn spec_marker_at(s: Seq<char>, i: int) -> bool {
    &&& 0 <= i
    &&& i + 9 <= s.len()
    &&& s.subrange(i, i + 9) == "Backtrace"@
}

/// The text up to the first backtrace marker; the whole text when there
/// is none.
pub open spec fn spec_without_backtrace(s: Seq<char>, cut: int) -> bool {
    &&& 0 <= cut <= s.len()
    &&& (forall|i: int| 0 <= i < cut ==> !spec_marker_at(s, i))
    &&& (cut < s.len() ==> spec_marker_at(s, cut))
    &&& (cut == s.len() ==> s.len() < cut + 9 || !spec_marker_at(s, cut))
}

/// Cut an error's text at its first backtrace marker, keeping everything
/// before it; text without a marker is kept whole.
#[verifier::loop_isolation(false)]
pub fn remove_backtrace_from_err(err_string: &str) -> (r: &str)
    ensures
        exists|cut: int|
            {
                &&& #[trigger] spec_without_backtrace(err_string@, cut)
                &&& r@ == err_string@.subrange(0, cut)
            },
{
    proof {
        reveal_strlit("Backtrace");
    }
    let n = err_string.unicode_len();
    if n < 9 {
        proof {
            assert(spec_without_backtrace(err_string@, n as int));
            assert(err_string@.subrange(0, n as int) =~= err_string@);
        }
        return err_string;
    }
    let mut i: usize = 0;
    while i <= n - 9
        invariant
            i <= n - 9 + 1,
            9 <= n == err_string@.len(),
            forall|j: int| 0 <= j < i ==> !spec_marker_at(err_string@, j),
        decreases n - i,
    {
        if marker_matches(err_string, i) {
            let r = err_string.substring_char(0, i);
            proof {
                assert(spec_without_backtrace(err_string@, i as int));
            }
            return r;
        }
        i += 1;
    }
    proof {
        assert forall|j: int| 0 <= j < n implies !spec_marker_at(err_string@, j) by {
            if j + 9 <= n {
                assert(j < i);
            } else {
                assert(!spec_marker_at(err_string@, j));
            }
        }
        assert(spec_without_backtrace(err_string@, n as int));
        assert(err_string@.subrange(0, n as int) =~= err_string@);
    }
    err_string
}

/// Whether the nine marker characters stand at position `i`.
#[verifier::loop_isolation(false)]
fn marker_matches(s: &str, i: usize) -> (r: bool)
    requires
        i + 9 <= s@.len(),
        i + 9 <= usize::MAX,
        "Backtrace"@.len() == 9,
    ensures
        r == spec_marker_at(s@, i as int),
{
    let mut k: usize = 0;
    let marker = "Backtrace";
    proof {
        assert(marker@ == "Backtrace"@);
    }
    while k < 9
        invariant
            k <= 9,
            i + 9 <= s@.len(),
            "Backtrace"@.len() == 9,
            forall|j: int| 0 <= j < k ==> s@[i + j] == "Backtrace"@[j],
        decreases 9 - k,
    {
        if s.get_char(i + k) != marker.get_char(k) {
            proof {
                if spec_marker_at(s@, i as int) {
                    assert(s@.subrange(i as int, i as int + 9)[k as int] == s@[i + k]);
                    assert(s@.subrange(i as int, i as int + 9)[k as int] == "Backtrace"@[k
                        as int]);
                    assert(false);
                }
            }
            return false;
        }
        k += 1;
    }
    proof {
        assert(s@.subrange(i as int, i as int + 9) =~= "Backtrace"@);
    }
    true
}

} // verus!
