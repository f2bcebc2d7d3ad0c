//! Verified text helpers: prefix tests, substring search, splitting, and
//! decimal conversion. Paths, group names and `tasks`-file lines are all
//! plain strings, so these helpers carry most of the string reasoning.

use vstd::prelude::*;

verus! {

/// `p` is a prefix of `s`.
pub open spec fn seq_starts_with(s: Seq<char>, p: Seq<char>) -> bool {
    p.len() <= s.len() && s.subrange(0, p.len() as int) == p
}

/// `p` occurs in `s` at position `i`.
pub open spec fn occurs_at(s: Seq<char>, p: Seq<char>, i: int) -> bool {
    0 <= i && i + p.len() <= s.len() && s.subrange(i, i + p.len() as int) == p
}

/// `p` occurs somewhere in `s`.
pub open spec fn seq_contains(s: Seq<char>, p: Seq<char>) -> bool {
    exists|i: int| occurs_at(s, p, i)
}

/// Whether `p` is a prefix of `s`, by character comparison.
pub fn str_starts_with(s: &str, p: &str) -> (r: bool)
    ensures
        r == seq_starts_with(s@, p@),
{
    let sn: usize = s.unicode_len();
    let pn: usize = p.unicode_len();
    if pn > sn {
        assert(!seq_starts_with(s@, p@));
        return false;
    }
    let mut i: usize = 0;
    while i < pn
        invariant
            i <= pn <= sn,
            sn == s@.len(),
            pn == p@.len(),
            forall|j: int| 0 <= j < i ==> s@[j] == p@[j],
        decreases pn - i,
    {
        if s.get_char(i) != p.get_char(i) {
            assert(s@.subrange(0, pn as int)[i as int] != p@[i as int]);
            return false;
        }
        i += 1;
    }
    assert(s@.subrange(0, pn as int) =~= p@);
    true
}

/// Whether `p` occurs in `s`, by naive search.
pub fn str_contains(s: &str, p: &str) -> (r: bool)
    ensures
        r == seq_contains(s@, p@),
{
    let sn: usize = s.unicode_len();
    let pn: usize = p.unicode_len();
    if pn > sn {
        return false;
    }
    let mut i: usize = 0;
    while i <= sn - pn
        invariant
            pn <= sn,
            sn == s@.len(),
            pn == p@.len(),
            i <= sn - pn + 1,
            forall|k: int| 0 <= k < i ==> !occurs_at(s@, p@, k),
        decreases sn + 1 - pn - i,
    {
        let mut j: usize = 0;
        let mut matches_here = true;
        while j < pn
            invariant
                i + pn <= sn,
                sn == s@.len(),
                pn == p@.len(),
                j <= pn,
                matches_here == forall|k: int| 0 <= k < j ==> s@[i + k] == p@[k],
            decreases pn - j,
        {
            if s.get_char(i + j) != p.get_char(j) {
                matches_here = false;
                assert(s@[i + j as int] != p@[j as int]);
                j = pn;
            } else {
                j += 1;
            }
        }
        if matches_here {
            assert(s@.subrange(i as int, i + pn as int) =~= p@);
            assert(occurs_at(s@, p@, i as int));
            return true;
        } else {
            assert(!occurs_at(s@, p@, i as int)) by {
                let witness = choose|k: int| 0 <= k < pn && s@[i + k] != p@[k];
                if occurs_at(s@, p@, i as int) {
                    assert(s@.subrange(i as int, i + pn as int)[witness] == p@[witness]);
                }
            }
        }
        i += 1;
    }
    assert(forall|k: int| occurs_at(s@, p@, k) ==> 0 <= k <= sn - pn);
    false
}

/// Index of the first occurrence of `c` in `s`, or -1 when absent.
pub open spec fn find_idx(s: Seq<char>, c: char) -> int
    decreases s.len(),
{
    if s.len() == 0 {
        -1
    } else if s[0] == c {
        0
    } else {
        let r = find_idx(s.drop_first(), c);
        if r < 0 {
            -1
        } else {
            r + 1
        }
    }
}

pub proof fn lemma_find_idx(s: Seq<char>, c: char)
    ensures
        find_idx(s, c) == -1 ==> forall|i: int| 0 <= i < s.len() ==> s[i] != c,
        find_idx(s, c) >= 0 ==> {
            &&& find_idx(s, c) < s.len()
            &&& s[find_idx(s, c)] == c
            &&& forall|i: int| 0 <= i < find_idx(s, c) ==> s[i] != c
        },
    decreases s.len(),
{
    if s.len() > 0 && s[0] != c {
        lemma_find_idx(s.drop_first(), c);
        assert forall|i: int| 0 <= i < s.len() && find_idx(s, c) == -1 implies s[i] != c by {
            if i > 0 {
                assert(s.drop_first()[i - 1] == s[i]);
            }
        }
        if find_idx(s, c) >= 0 {
            assert(s.drop_first()[find_idx(s, c) - 1] == s[find_idx(s, c)]);
            assert forall|i: int| 0 <= i < find_idx(s, c) implies s[i] != c by {
                if i > 0 {
                    assert(s.drop_first()[i - 1] == s[i]);
                }
            }
        }
    }
}

/// First occurrence of `c` in `s` at or after `from`, if any.
pub fn find_char_from(s: &str, c: char, from: usize) -> (r: Option<usize>)
    requires
        from <= s@.len(),
    ensures
        match r {
            Some(i) => from <= i < s@.len() && s@[i as int] == c && forall|j: int|
                from <= j < i ==> s@[j] != c,
            None => forall|j: int| from <= j < s@.len() ==> s@[j] != c,
        },
{
    let n: usize = s.unicode_len();
    let mut i: usize = from;
    while i < n
        invariant
            from <= i <= n,
            n == s@.len(),
            forall|j: int| from <= j < i ==> s@[j] != c,
        decreases n - i,
    {
        if s.get_char(i) == c {
            return Some(i);
        }
        i += 1;
    }
    None
}

/// Split `s` at every occurrence of `c`; separators are not kept.
/// Splitting the empty sequence yields one empty piece, as `str::split` does.
pub open spec fn split_seq(s: Seq<char>, c: char) -> Seq<Seq<char>>
    decreases s.len(),
    via split_seq_dec
{
    let i = find_idx(s, c);
    if i < 0 {
        seq![s]
    } else {
        seq![s.subrange(0, i)] + split_seq(s.subrange(i + 1, s.len() as int), c)
    }
}

#[via_fn]
proof fn split_seq_dec(s: Seq<char>, c: char) {
    lemma_find_idx(s, c);
}

pub proof fn lemma_split_seq_len(s: Seq<char>, c: char)
    ensures
        split_seq(s, c).len() >= 1,
    decreases s.len(),
{
    let i = find_idx(s, c);
    if i >= 0 {
        lemma_find_idx(s, c);
        lemma_split_seq_len(s.subrange(i + 1, s.len() as int), c);
    }
}

/// Split a string at every occurrence of `c`.
pub fn split_char(s: &str, c: char) -> (parts: Vec<String>)
    ensures
        parts@.map_values(|p: String| p@) == split_seq(s@, c),
        parts@.len() >= 1,
{
    let n: usize = s.unicode_len();
    let mut parts: Vec<String> = Vec::new();
    let mut start: usize = 0;
    proof {
        assert(s@.subrange(0, n as int) =~= s@);
        assert(parts@.map_values(|p: String| p@) =~= Seq::<Seq<char>>::empty());
        assert(parts@.map_values(|p: String| p@) + split_seq(s@, c) =~= split_seq(s@, c));
    }
    loop
        invariant
            start <= n,
            n == s@.len(),
            split_seq(s@, c) == parts@.map_values(|p: String| p@) + split_seq(
                s@.subrange(start as int, n as int),
                c,
            ),
        decreases n - start,
    {
        let rest_ghost = Ghost(s@.subrange(start as int, n as int));
        match find_char_from(s, c, start) {
            Some(i) => {
                let piece = s.substring_char(start, i).to_owned();
                proof {
                    lemma_find_idx(rest_ghost@, c);
                    assert forall|j: int| 0 <= j < rest_ghost@.len() && rest_ghost@[j] == c
                        implies j >= i - start by {
                        assert(s@[start + j] == c);
                    }
                    assert(rest_ghost@[i - start] == s@[i as int]);
                    assert(find_idx(rest_ghost@, c) == i - start);
                    assert(rest_ghost@.subrange(0, i - start) =~= s@.subrange(
                        start as int,
                        i as int,
                    ));
                    assert(rest_ghost@.subrange(i - start + 1, rest_ghost@.len() as int)
                        =~= s@.subrange(i + 1, n as int));
                    assert(split_seq(rest_ghost@, c) == seq![s@.subrange(start as int, i as int)]
                        + split_seq(s@.subrange(i + 1, n as int), c));
                }
                parts.push(piece);
                proof {
                    assert(parts@.map_values(|p: String| p@) =~= parts@.subrange(
                        0,
                        parts@.len() - 1,
                    ).map_values(|p: String| p@).push(s@.subrange(start as int, i as int)));
                    assert(parts@.map_values(|p: String| p@) + split_seq(
                        s@.subrange(i + 1, n as int),
                        c,
                    ) =~= split_seq(s@, c));
                }
                start = i + 1;
            },
            None => {
                let piece = s.substring_char(start, n).to_owned();
                proof {
                    lemma_find_idx(rest_ghost@, c);
                    if find_idx(rest_ghost@, c) >= 0 {
                        let k = find_idx(rest_ghost@, c);
                        assert(s@[start + k] == c);
                    }
                    assert(split_seq(rest_ghost@, c) == seq![rest_ghost@]);
                }
                parts.push(piece);
                proof {
                    assert(parts@.map_values(|p: String| p@) =~= parts@.subrange(
                        0,
                        parts@.len() - 1,
                    ).map_values(|p: String| p@).push(rest_ghost@));
                    assert(parts@.map_values(|p: String| p@) == split_seq(s@, c));
                }
                return parts;
            },
        }
    }
}

} // verus!
