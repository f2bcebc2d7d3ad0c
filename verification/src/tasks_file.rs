//! The resctrl `tasks` file format: one decimal PID per line. What a content
//! string denotes, and how one appended PID line changes it.

use vstd::prelude::*;

use crate::dec::{dec_digits, is_digit, lemma_dec_digits_shape, lemma_dec_roundtrip, parse_i32,
    parse_i32_spec};
use crate::text::{find_idx, lemma_find_idx, lemma_split_seq_len, split_char, split_seq};

verus! {

/// The pids the lines denote, in order; lines that do not parse are dropped.
pub open spec fn pids_of_lines(lines: Seq<Seq<char>>) -> Seq<int>
    decreases lines.len(),
{
    if lines.len() == 0 {
        Seq::empty()
    } else {
        pids_of_lines(lines.drop_last()) + match parse_i32_spec(lines.last()) {
            Some(p) => seq![p as int],
            None => Seq::empty(),
        }
    }
}

/// The pids a `tasks` file content denotes, in line order.
pub open spec fn tasks_pids(content: Seq<char>) -> Seq<int> {
    pids_of_lines(split_seq(content, '\n'))
}

/// The set of pids a `tasks` file content denotes.
pub open spec fn tasks_set(content: Seq<char>) -> Set<int> {
    tasks_pids(content).to_set()
}

/// Empty, or ending in a newline: the shape every append leaves behind.
pub open spec fn nl_terminated(content: Seq<char>) -> bool {
    content.len() == 0 || content.last() == '\n'
}

/// Parse a `tasks` file: one pid per parseable line.
pub fn parse_tasks(content: &str) -> (r: Vec<i32>)
    ensures
        r@.map_values(|p: i32| p as int) == tasks_pids(content@),
{
    let lines = split_char(content, '\n');
    let mut out: Vec<i32> = Vec::new();
    let n = lines.len();
    let mut i: usize = 0;
    while i < n
        invariant
            i <= n,
            n == lines@.len(),
            lines@.map_values(|p: String| p@) == split_seq(content@, '\n'),
            out@.map_values(|p: i32| p as int) == pids_of_lines(
                split_seq(content@, '\n').subrange(0, i as int),
            ),
        decreases n - i,
    {
        let piece_view = Ghost(split_seq(content@, '\n').subrange(0, i + 1));
        proof {
            assert(piece_view@.drop_last() =~= split_seq(content@, '\n').subrange(0, i as int));
            assert(piece_view@.last() == lines@[i as int]@);
        }
        match parse_i32(lines[i].as_str()) {
            Some(p) => {
                out.push(p);
                proof {
                    assert(out@.map_values(|q: i32| q as int) =~= pids_of_lines(piece_view@));
                }
            },
            None => {
                proof {
                    assert(out@.map_values(|q: i32| q as int) =~= pids_of_lines(piece_view@));
                }
            },
        }
        i += 1;
    }
    proof {
        assert(split_seq(content@, '\n').subrange(0, n as int) =~= split_seq(content@, '\n'));
    }
    out
}

/// Joining split pieces: the last piece of the first part fuses with the
/// first piece of the second.
pub open spec fn split_concat(x: Seq<Seq<char>>, y: Seq<Seq<char>>) -> Seq<Seq<char>> {
    x.drop_last() + seq![x.last() + y.first()] + y.drop_first()
}

pub proof fn lemma_split_of_concat(a: Seq<char>, b: Seq<char>, c: char)
    ensures
        split_seq(a + b, c) == split_concat(split_seq(a, c), split_seq(b, c)),
    decreases a.len(),
{
    lemma_find_idx(a, c);
    lemma_find_idx(b, c);
    lemma_find_idx(a + b, c);
    lemma_split_seq_len(a, c);
    lemma_split_seq_len(b, c);
    let i = find_idx(a, c);
    if i >= 0 {
        // the first separator of a + b is a's
        assert((a + b)[i] == c);
        assert forall|j: int| 0 <= j < i implies (a + b)[j] != c by {
            assert((a + b)[j] == a[j]);
        }
        assert(find_idx(a + b, c) == i);
        let a2 = a.subrange(i + 1, a.len() as int);
        lemma_split_of_concat(a2, b, c);
        assert((a + b).subrange(0, i) =~= a.subrange(0, i));
        assert((a + b).subrange(i + 1, (a + b).len() as int) =~= a2 + b);
        lemma_split_seq_len(a2, c);
        lemma_split_seq_len(a2 + b, c);
        assert(split_seq(a + b, c) == seq![a.subrange(0, i)] + split_concat(
            split_seq(a2, c),
            split_seq(b, c),
        ));
        assert((seq![a.subrange(0, i)] + split_seq(a2, c)).drop_last() =~= seq![
            a.subrange(0, i),
        ] + split_seq(a2, c).drop_last());
        assert((seq![a.subrange(0, i)] + split_seq(a2, c)).last() == split_seq(a2, c).last());
        assert(split_seq(a + b, c) =~= split_concat(split_seq(a, c), split_seq(b, c)));
    } else {
        // a holds no separator: its one piece fuses with b's first
        assert(split_seq(a, c) == seq![a]);
        let j = find_idx(b, c);
        if j >= 0 {
            assert((a + b)[a.len() + j] == c);
            assert forall|t: int| 0 <= t < a.len() + j implies (a + b)[t] != c by {
                if t < a.len() {
                    assert((a + b)[t] == a[t]);
                } else {
                    assert((a + b)[t] == b[t - a.len()]);
                }
            }
            assert(find_idx(a + b, c) == a.len() + j);
            assert((a + b).subrange(0, a.len() + j) =~= a + b.subrange(0, j));
            assert((a + b).subrange(a.len() + j + 1, (a + b).len() as int) =~= b.subrange(
                j + 1,
                b.len() as int,
            ));
            assert(split_seq(a + b, c) == seq![a + b.subrange(0, j)] + split_seq(
                b.subrange(j + 1, b.len() as int),
                c,
            ));
            assert(split_seq(b, c) == seq![b.subrange(0, j)] + split_seq(
                b.subrange(j + 1, b.len() as int),
                c,
            ));
            let single: Seq<Seq<char>> = seq![a];
            assert(single.drop_last() =~= Seq::<Seq<char>>::empty());
            assert(split_seq(a + b, c) =~= split_concat(split_seq(a, c), split_seq(b, c)));
        } else {
            assert forall|t: int| 0 <= t < (a + b).len() implies (a + b)[t] != c by {
                if t < a.len() {
                    assert((a + b)[t] == a[t]);
                } else {
                    assert((a + b)[t] == b[t - a.len()]);
                }
            }
            if find_idx(a + b, c) >= 0 {
                assert((a + b)[find_idx(a + b, c)] == c);
            }
            assert(split_seq(a + b, c) == seq![a + b]);
            let single: Seq<Seq<char>> = seq![a];
            assert(single.drop_last() =~= Seq::<Seq<char>>::empty());
            assert(split_seq(b, c) == seq![b]);
            assert(split_seq(a + b, c) =~= split_concat(split_seq(a, c), split_seq(b, c)));
        }
    }
}

pub proof fn lemma_pids_of_lines_concat(x: Seq<Seq<char>>, y: Seq<Seq<char>>)
    ensures
        pids_of_lines(x + y) == pids_of_lines(x) + pids_of_lines(y),
    decreases y.len(),
{
    if y.len() == 0 {
        assert(x + y =~= x);
        assert(pids_of_lines(x) + pids_of_lines(y) =~= pids_of_lines(x));
    } else {
        lemma_pids_of_lines_concat(x, y.drop_last());
        assert((x + y).drop_last() =~= x + y.drop_last());
        assert((x + y).last() == y.last());
        assert(pids_of_lines(x + y) =~= pids_of_lines(x) + pids_of_lines(y));
    }
}

/// A trailing newline closes the last line: the final piece is empty.
pub proof fn lemma_nl_terminated_last_piece(content: Seq<char>)
    requires
        nl_terminated(content),
        content.len() > 0,
    ensures
        split_seq(content, '\n').last() == Seq::<char>::empty(),
        split_seq(content, '\n').len() >= 2,
    decreases content.len(),
{
    lemma_find_idx(content, '\n');
    let i = find_idx(content, '\n');
    assert(content[content.len() - 1] == '\n');
    assert(i >= 0);
    let rest = content.subrange(i + 1, content.len() as int);
    lemma_split_seq_len(rest, '\n');
    if rest.len() == 0 {
        assert(split_seq(rest, '\n') == seq![rest]);
        assert(split_seq(content, '\n').last() == rest);
    } else {
        assert(rest.last() == content.last());
        lemma_nl_terminated_last_piece(rest);
        assert(split_seq(content, '\n').last() == split_seq(rest, '\n').last());
    }
}

/// Appending one pid line extends the parsed pid sequence by that pid.
/// The line is `p` rendered in decimal plus a newline; when the existing
/// content does not end in a newline, a newline is put in front as well.
pub proof fn lemma_tasks_append(content: Seq<char>, p: nat)
    requires
        nl_terminated(content),
        p <= i32::MAX as nat,
    ensures
        tasks_pids(content + dec_digits(p) + seq!['\n']) == tasks_pids(content).push(p as int),
        nl_terminated(content + dec_digits(p) + seq!['\n']),
    decreases content.len(),
{
    let w = dec_digits(p);
    lemma_dec_digits_shape(p);
    lemma_dec_roundtrip(p);
    assert(!w.contains('\n')) by {
        if w.contains('\n') {
            let t = choose|t: int| 0 <= t < w.len() && w[t] == '\n';
            assert(is_digit(w[t]));
        }
    }
    // the appended piece splits as [w, ""]
    let tail = w + seq!['\n'];
    assert(tail.last() == '\n');
    lemma_find_idx(tail, '\n');
    assert forall|t: int| 0 <= t < w.len() implies tail[t] != '\n' by {
        assert(tail[t] == w[t]);
        assert(is_digit(w[t]));
    }
    assert(tail[w.len() as int] == '\n');
    assert(find_idx(tail, '\n') == w.len());
    assert(tail.subrange(0, w.len() as int) =~= w);
    assert(tail.subrange(w.len() as int + 1, tail.len() as int) =~= Seq::<char>::empty());
    assert(split_seq(tail, '\n') == seq![w] + split_seq(Seq::empty(), '\n'));
    assert(split_seq(Seq::<char>::empty(), '\n') == seq![Seq::<char>::empty()]);
    assert(split_seq(tail, '\n') =~= seq![w, Seq::<char>::empty()]);
    // empty line parses to nothing
    assert(parse_i32_spec(Seq::<char>::empty()) is None) by {
        crate::dec::lemma_first_non_ws(Seq::<char>::empty());
    }
    lemma_split_of_concat(content, tail, '\n');
    let cs = split_seq(content, '\n');
    lemma_split_seq_len(content, '\n');
    if content.len() == 0 {
        assert(content =~= Seq::<char>::empty());
        assert(cs == seq![content]);
        assert(cs == seq![Seq::<char>::empty()]);
        assert(cs.drop_last() =~= Seq::<Seq<char>>::empty());
        assert(split_concat(cs, split_seq(tail, '\n')) =~= seq![w, Seq::<char>::empty()]) by {
            assert(cs.last() + split_seq(tail, '\n').first() =~= w);
            assert(split_seq(tail, '\n').drop_first() =~= seq![Seq::<char>::empty()]);
        }
        assert(content + w + seq!['\n'] =~= content + tail);
        assert(pids_of_lines(seq![w, Seq::<char>::empty()]) =~= seq![p as int]) by {
            let pair: Seq<Seq<char>> = seq![w, Seq::<char>::empty()];
            let single: Seq<Seq<char>> = seq![w];
            assert(pair.drop_last() =~= single);
            assert(pair.last() =~= Seq::<char>::empty());
            assert(parse_i32_spec(pair.last()) is None);
            assert(pids_of_lines(pair) == pids_of_lines(single));
            assert(single.drop_last() =~= Seq::<Seq<char>>::empty());
            assert(single.last() == w);
            assert(parse_i32_spec(w) == Some(p as i32));
            assert(pids_of_lines(Seq::<Seq<char>>::empty()) == Seq::<int>::empty());
            assert(pids_of_lines(single.drop_last()) == Seq::<int>::empty());
            assert(pids_of_lines(single) == pids_of_lines(single.drop_last()) + seq![p as int]);
            assert(pids_of_lines(single) =~= seq![p as int]);
        }
        assert(tasks_pids(content) =~= Seq::<int>::empty()) by {
            assert(cs.drop_last() =~= Seq::<Seq<char>>::empty());
            assert(parse_i32_spec(cs.last()) is None);
            assert(pids_of_lines(Seq::<Seq<char>>::empty()) == Seq::<int>::empty());
            assert(pids_of_lines(cs.drop_last()) == Seq::<int>::empty());
            assert(pids_of_lines(cs) == pids_of_lines(cs.drop_last()) + Seq::<int>::empty());
        }
        assert(tasks_pids(content + w + seq!['\n']) =~= tasks_pids(content).push(p as int));
    } else {
        lemma_nl_terminated_last_piece(content);
        assert(cs.last() + split_seq(tail, '\n').first() =~= w);
        assert(split_concat(cs, split_seq(tail, '\n')) =~= cs.drop_last() + seq![w, Seq::<
            char,
        >::empty()]) by {
            assert(split_seq(tail, '\n').drop_first() =~= seq![Seq::<char>::empty()]);
            assert(cs.drop_last() + seq![cs.last() + split_seq(tail, '\n').first()] + seq![Seq::<
                char,
            >::empty()] =~= cs.drop_last() + seq![w, Seq::<char>::empty()]);
        }
        assert(content + w + seq!['\n'] =~= content + tail);
        lemma_pids_of_lines_concat(cs.drop_last(), seq![w, Seq::<char>::empty()]);
        assert(pids_of_lines(seq![w, Seq::<char>::empty()]) =~= seq![p as int]) by {
            let pair: Seq<Seq<char>> = seq![w, Seq::<char>::empty()];
            let single: Seq<Seq<char>> = seq![w];
            assert(pair.drop_last() =~= single);
            assert(pair.last() =~= Seq::<char>::empty());
            assert(parse_i32_spec(pair.last()) is None);
            assert(pids_of_lines(pair) == pids_of_lines(single));
            assert(single.drop_last() =~= Seq::<Seq<char>>::empty());
            assert(single.last() == w);
            assert(parse_i32_spec(w) == Some(p as i32));
            assert(pids_of_lines(Seq::<Seq<char>>::empty()) == Seq::<int>::empty());
            assert(pids_of_lines(single.drop_last()) == Seq::<int>::empty());
            assert(pids_of_lines(single) == pids_of_lines(single.drop_last()) + seq![p as int]);
            assert(pids_of_lines(single) =~= seq![p as int]);
        }
        assert(pids_of_lines(cs) =~= pids_of_lines(cs.drop_last())) by {
            assert(parse_i32_spec(cs.last()) is None);
        }
        assert(tasks_pids(content + w + seq!['\n']) =~= tasks_pids(content).push(p as int));
    }
    assert((content + dec_digits(p) + seq!['\n']).last() == '\n');
}

/// Adding a newline to unterminated content denotes the same pids.
pub proof fn lemma_tasks_terminate(content: Seq<char>)
    ensures
        tasks_pids(content + seq!['\n']) == tasks_pids(content),
        nl_terminated(content + seq!['\n']),
{
    let nl = seq!['\n'];
    lemma_find_idx(nl, '\n');
    assert(find_idx(nl, '\n') == 0);
    assert(nl.subrange(0, 0) =~= Seq::<char>::empty());
    assert(nl.subrange(1, 1) =~= Seq::<char>::empty());
    assert(split_seq(nl, '\n') =~= seq![Seq::<char>::empty(), Seq::<char>::empty()]) by {
        assert(split_seq(Seq::<char>::empty(), '\n') == seq![Seq::<char>::empty()]);
    }
    lemma_split_of_concat(content, nl, '\n');
    let cs = split_seq(content, '\n');
    lemma_split_seq_len(content, '\n');
    assert(cs.last() + split_seq(nl, '\n').first() =~= cs.last());
    assert(split_concat(cs, split_seq(nl, '\n')) =~= cs + seq![Seq::<char>::empty()]) by {
        assert(split_seq(nl, '\n').drop_first() =~= seq![Seq::<char>::empty()]);
        assert(cs.drop_last() + seq![cs.last()] =~= cs);
        assert(cs.drop_last() + seq![cs.last() + split_seq(nl, '\n').first()] + seq![Seq::<
            char,
        >::empty()] =~= cs + seq![Seq::<char>::empty()]);
    }
    assert(parse_i32_spec(Seq::<char>::empty()) is None) by {
        crate::dec::lemma_first_non_ws(Seq::<char>::empty());
    }
    assert((cs + seq![Seq::<char>::empty()]).drop_last() =~= cs);
    assert(pids_of_lines(cs + seq![Seq::<char>::empty()]) =~= pids_of_lines(cs));
    assert((content + seq!['\n']).last() == '\n');
}

} // verus!
