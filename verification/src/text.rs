//! Substring search over strings, used to recognise backend error messages.

use vstd::prelude::*;
use vstd::string::StrSliceExecFns;

verus! {

/// `needle` occurs in `hay` starting at position `i`.
pub open spec fn match_at(hay: Seq<char>, needle: Seq<char>, i: int) -> bool {
    hay.subrange(i, i + needle.len()) == needle
}

/// `needle` occurs somewhere in `hay`.
pub open spec fn contains_seq(hay: Seq<char>, needle: Seq<char>) -> bool {
    exists|i: int| 0 <= i && i + needle.len() <= hay.len() && #[trigger] match_at(hay, needle, i)
}

/// Whether `needle` occurs as a substring of `hay`.
pub fn str_contains(hay: &str, needle: &str) -> (r: bool)
    ensures
        r == contains_seq(hay@, needle@),
{
    let hay_len = hay.unicode_len();
    let needle_len = needle.unicode_len();
    if needle_len == 0 {
        proof {
            assert(hay@.subrange(0, 0) =~= needle@);
            assert(match_at(hay@, needle@, 0));
        }
        return true;
    }
    if needle_len > hay_len {
        proof {
            assert(!contains_seq(hay@, needle@)) by {
                if contains_seq(hay@, needle@) {
                    let i = choose|i: int|
                        0 <= i && i + needle@.len() <= hay@.len() && #[trigger] match_at(
                            hay@,
                            needle@,
                            i,
                        );
                    assert(false);
                }
            }
        }
        return false;
    }
    let mut i: usize = 0;
    while i <= hay_len - needle_len
        invariant
            0 < needle_len <= hay_len,
            hay_len == hay@.len(),
            needle_len == needle@.len(),
            i <= hay_len - needle_len + 1,
            forall|k: int| 0 <= k < i ==> !match_at(hay@, needle@, k),
        decreases hay_len - needle_len - i + 1,
    {
        let mut j: usize = 0;
        let mut matched = true;
        while j < needle_len && matched
            invariant
                0 < needle_len <= hay_len,
                hay_len == hay@.len(),
                needle_len == needle@.len(),
                i <= hay_len - needle_len,
                j <= needle_len,
                matched ==> forall|k: int| 0 <= k < j ==> hay@[i + k] == needle@[k],
                !matched ==> !match_at(hay@, needle@, i as int),
            decreases needle_len - j + (if matched {
                1int
            } else {
                0int
            }),
        {
            let hc = hay.get_char(i + j);
            let nc = needle.get_char(j);
            if hc != nc {
                proof {
                    assert(hay@.subrange(i as int, i + needle@.len())[j as int] == hay@[i + j]);
                    assert(hay@.subrange(i as int, i + needle@.len()) != needle@);
                }
                matched = false;
            } else {
                j += 1;
            }
        }
        if matched {
            proof {
                assert forall|k: int| 0 <= k < needle@.len() implies hay@.subrange(
                    i as int,
                    i + needle@.len(),
                )[k] == needle@[k] by {
                    assert(hay@[i + k] == needle@[k]);
                }
                assert(hay@.subrange(i as int, i + needle@.len()) =~= needle@);
                assert(match_at(hay@, needle@, i as int));
            }
            return true;
        }
        i += 1;
    }
    proof {
        assert(forall|k: int| 0 <= k && k + needle@.len() <= hay@.len() ==> !match_at(
            hay@,
            needle@,
            k,
        ));
    }
    false
}

/// The phrase with which the backend reports a rejected password.
pub open spec fn auth_failed_marker() -> Seq<char> {
    "password authentication failed"@
}

/// Whether a dial error message reports a rejected password.  The backend has
/// no structured error code for this, so the message text is matched.
pub fn is_auth_failed_message(msg: &str) -> (r: bool)
    ensures
        r == contains_seq(msg@, auth_failed_marker()),
{
    str_contains(msg, "password authentication failed")
}

} // verus!
