//! Small string utilities: UTF-8 decoding for the wire codec, substring
//! search for the watcher's class check, and trailing-newline trimming for
//! command output.

use vstd::prelude::*;
use vstd::utf8::{encode_utf8, valid_utf8};

verus! {

/// Relies on core::str::from_utf8: it accepts exactly the valid UTF-8 byte
/// sequences and views the accepted bytes unchanged.
#[verifier::external_body]
pub(crate) fn string_from_utf8(bytes: &[u8]) -> (r: Option<String>)
    ensures
        r matches Some(s) ==> encode_utf8(s@) == bytes@,
        r is Some <==> valid_utf8(bytes@),
{
    match core::str::from_utf8(bytes) {
        Ok(s) => Some(s.to_owned()),
        Err(_) => None,
    }
}

/// Whether `needle` occurs contiguously in `hay`.
pub open spec fn spec_contains(hay: Seq<char>, needle: Seq<char>) -> bool {
    exists|i: int|
        0 <= i && i + needle.len() <= hay.len() && #[trigger] hay.subrange(i, i + needle.len())
            == needle
}

/// Substring search over the character sequences.
pub fn str_contains(hay: &str, needle: &str) -> (r: bool)
    ensures
        r == spec_contains(hay@, needle@),
{
    let n = hay.unicode_len();
    let m = needle.unicode_len();
    if m > n {
        proof {
            if spec_contains(hay@, needle@) {
                let i = choose|i: int|
                    0 <= i && i + needle@.len() <= hay@.len() && #[trigger] hay@.subrange(
                        i,
                        i + needle@.len(),
                    ) == needle@;
                assert(false);
            }
        }
        return false;
    }
    let mut i: usize = 0;
    while i <= n - m
        invariant
            m <= n,
            n == hay@.len(),
            m == needle@.len(),
            i <= n - m + 1,
            forall|k: int|
                0 <= k < i ==> #[trigger] hay@.subrange(k, k + needle@.len()) != needle@,
        decreases n - m - i + 1,
    {
        let mut j: usize = 0;
        let mut is_match = true;
        while j < m
            invariant
                m <= n,
                n == hay@.len(),
                m == needle@.len(),
                i + m <= n,
                j <= m,
                is_match == (forall|l: int|
                    0 <= l < j ==> hay@[i + l] == needle@[l]),
            decreases m - j,
        {
            if hay.get_char(i + j) != needle.get_char(j) {
                is_match = false;
                proof {
                    assert(hay@[i + j] != needle@[j as int]);
                }
                j = m;
            } else {
                j = j + 1;
            }
        }
        if is_match {
            proof {
                assert(hay@.subrange(i as int, i + needle@.len()) =~= needle@);
            }
            return true;
        }
        proof {
            if hay@.subrange(i as int, i + needle@.len()) == needle@ {
                assert(forall|l: int|
                    0 <= l < m ==> #[trigger] hay@.subrange(i as int, i + needle@.len())[l]
                        == hay@[i + l]);
                assert(false);
            }
        }
        i = i + 1;
    }
    proof {
        if spec_contains(hay@, needle@) {
            let k = choose|k: int|
                0 <= k && k + needle@.len() <= hay@.len() && #[trigger] hay@.subrange(
                    k,
                    k + needle@.len(),
                ) == needle@;
            assert(false);
        }
    }
    false
}

/// Whether the character ends a line.
pub open spec fn spec_is_line_break(c: char) -> bool {
    c == '\n' || c == '\r'
}

/// The sequence with every trailing line-break character removed.
pub open spec fn spec_trim_end(s: Seq<char>) -> Seq<char>
    decreases s.len(),
{
    if s.len() > 0 && spec_is_line_break(s.last()) {
        spec_trim_end(s.drop_last())
    } else {
        s
    }
}

/// Removes the trailing newline and carriage-return characters, as command
/// output is normalized before it is kept as a backup value.
pub fn trim_trailing_newlines(s: &str) -> (r: String)
    ensures
        r@ == spec_trim_end(s@),
{
    let n = s.unicode_len();
    let mut end = n;
    proof {
        assert(s@.take(n as int) =~= s@);
    }
    while end > 0
        invariant
            end <= n,
            n == s@.len(),
            spec_trim_end(s@) == spec_trim_end(s@.take(end as int)),
        ensures
            end <= n,
            spec_trim_end(s@) == spec_trim_end(s@.take(end as int)),
            end > 0 ==> !spec_is_line_break(s@[end - 1]),
        decreases end,
    {
        let c = s.get_char(end - 1);
        if c == '\n' || c == '\r' {
            proof {
                assert(s@.take(end as int).last() == s@[end - 1]);
                assert(s@.take(end as int).drop_last() =~= s@.take(end - 1));
            }
            end = end - 1;
        } else {
            break;
        }
    }
    proof {
        if end > 0 {
            assert(s@.take(end as int).last() == s@[end - 1]);
        }
        assert(spec_trim_end(s@.take(end as int)) == s@.take(end as int));
    }
    let out = s.substring_char(0, end);
    proof {
        assert(out@ =~= s@.take(end as int));
    }
    out.to_owned()
}

} // verus!
