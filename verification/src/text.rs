//! Character-level helpers: string equality and splitting a names list
//! on spaces, with specifications over the strings' character sequences.

use vstd::prelude::*;

verus! {

/// True when the name begins with one of the role-prefix markers that mean
/// the member already holds a privilege in the channel.
pub open spec fn spec_has_special_role(s: Seq<char>) -> bool {
    s.len() > 0 && crate::spec_special_prefixes().contains(s[0])
}

/// A member whose name starts with a role-prefix marker already has a
/// privilege (or can self-assign it), so snapshots skip it.
pub fn has_special_role(nickname: &str) -> (r: bool)
    ensures
        r == spec_has_special_role(nickname@),
{
    if nickname.unicode_len() == 0 {
        proof {
            assert(!spec_has_special_role(nickname@));
        }
        return false;
    }
    let c = nickname.get_char(0);
    let r = c == '@' || c == '+' || c == '~' || c == '&' || c == '%';
    proof {
        if r {
            assert(crate::spec_special_prefixes().contains(nickname@[0]));
        } else {
            assert(forall|i: int|
                0 <= i < crate::spec_special_prefixes().len() ==> crate::spec_special_prefixes()[i]
                    != nickname@[0]);
        }
    }
    r
}

/// Character-by-character string equality, so that callers can compare
/// names without relying on unspecified library code.
pub fn str_eq(a: &str, b: &str) -> (r: bool)
    ensures
        r == (a@ == b@),
{
    let n = a.unicode_len();
    let m = b.unicode_len();
    if n != m {
        return false;
    }
    let mut i: usize = 0;
    while i < n
        invariant
            n == a@.len(),
            n == b@.len(),
            i <= n,
            forall|j: int| 0 <= j < i ==> a@[j] == b@[j],
        decreases n - i,
    {
        if a.get_char(i) != b.get_char(i) {
            return false;
        }
        i += 1;
    }
    proof {
        assert(a@ =~= b@);
    }
    true
}

/// Index of the first space in `s`, or `s.len()` when there is none.
pub open spec fn first_space(s: Seq<char>) -> nat
    decreases s.len(),
{
    if s.len() == 0 {
        0
    } else if s[0] == ' ' {
        0
    } else {
        1 + first_space(s.drop_first())
    }
}

/// The segments of `s` between its spaces, in order. Consecutive spaces and
/// spaces at either end produce empty segments, and an empty input yields a
/// single empty segment, exactly as splitting on a single character does.
pub open spec fn spec_split_spaces(s: Seq<char>) -> Seq<Seq<char>>
    decreases s.len(),
{
    let i = first_space(s);
    if i >= s.len() {
        seq![s]
    } else {
        seq![s.subrange(0, i as int)] + spec_split_spaces(
            s.subrange(i as int + 1, s.len() as int),
        )
    }
}

/// `first_space` is determined by the position of the first space: if no
/// character before `k` is a space and `k` is either a space or the end,
/// then `first_space` is `k`.
proof fn lemma_first_space_is(s: Seq<char>, k: nat)
    requires
        k <= s.len(),
        forall|j: int| 0 <= j < k ==> s[j] != ' ',
        k < s.len() ==> s[k as int] == ' ',
    ensures
        first_space(s) == k,
    decreases s.len(),
{
    if k == 0 {
    } else {
        assert(s[0] != ' ');
        assert forall|j: int| 0 <= j < k - 1 implies s.drop_first()[j] != ' ' by {
            assert(s.drop_first()[j] == s[j + 1]);
        }
        if k < s.len() {
            assert(s.drop_first()[k - 1] == s[k as int]);
        }
        lemma_first_space_is(s.drop_first(), (k - 1) as nat);
    }
}

/// Splits `s` on every space. The resulting strings' character sequences
/// are exactly `spec_split_spaces(s@)`.
pub fn split_spaces(s: &str) -> (r: Vec<String>)
    ensures
        r@.map_values(|t: String| t@) == spec_split_spaces(s@),
{
    let n = s.unicode_len();
    let mut out: Vec<String> = Vec::new();
    let mut start: usize = 0;
    let mut i: usize = 0;
    proof {
        assert(s@.subrange(0, n as int) =~= s@);
        assert(out@.map_values(|t: String| t@) =~= Seq::<Seq<char>>::empty());
    }
    while i < n
        invariant
            n == s@.len(),
            start <= i <= n,
            forall|j: int| start <= j < i ==> s@[j] != ' ',
            spec_split_spaces(s@) =~= out@.map_values(|t: String| t@) + spec_split_spaces(
                s@.subrange(start as int, n as int),
            ),
        decreases n - i,
    {
        if s.get_char(i) == ' ' {
            let token = s.substring_char(start, i).to_owned();
            proof {
                let suf = s@.subrange(start as int, n as int);
                assert forall|j: int| 0 <= j < i - start implies suf[j] != ' ' by {
                    assert(suf[j] == s@[start + j]);
                }
                assert(suf[i - start] == s@[i as int]);
                lemma_first_space_is(suf, (i - start) as nat);
                assert(suf.subrange(0, i - start) =~= s@.subrange(start as int, i as int));
                assert(suf.subrange(i - start + 1, suf.len() as int) =~= s@.subrange(
                    i as int + 1,
                    n as int,
                ));
                assert((out@.push(token)).map_values(|t: String| t@) =~= out@.map_values(
                    (|t: String| t@),
                ).push(token@));
            }
            out.push(token);
            start = i + 1;
        }
        i += 1;
    }
    let token = s.substring_char(start, n).to_owned();
    proof {
        let suf = s@.subrange(start as int, n as int);
        assert forall|j: int| 0 <= j < suf.len() implies suf[j] != ' ' by {
            assert(suf[j] == s@[start + j]);
        }
        lemma_first_space_is(suf, suf.len() as nat);
        assert(token@ =~= suf);
        assert((out@.push(token)).map_values(|t: String| t@) =~= out@.map_values(
            (|t: String| t@),
        ).push(token@));
    }
    out.push(token);
    proof {
        assert(out@.map_values(|t: String| t@) =~= spec_split_spaces(s@));
    }
    out
}

} // verus!
