//! The one passthrough merge special case: when two modlets contribute a
//! localization text asset under the same relative path, the later file's
//! header line is stripped and its remaining lines are appended to the
//! existing destination with CRLF line endings.

use vstd::prelude::*;

verus! {

/// The index of the first line feed, or the length when there is none.
pub open spec fn first_nl(s: Seq<u8>) -> int
    decreases s.len(),
{
    if s.len() == 0 {
        0
    } else if s[0] == 10u8 {
        0
    } else {
        1 + first_nl(s.drop_first())
    }
}

/// A line with a trailing carriage return stripped.
pub open spec fn strip_cr(l: Seq<u8>) -> Seq<u8> {
    if l.len() > 0 && l[l.len() - 1] == 13u8 {
        l.drop_last()
    } else {
        l
    }
}

/// The lines of a text, split on line feeds, each stripped of a trailing
/// carriage return; a trailing line feed yields no final empty line.
pub open spec fn split_lines(s: Seq<u8>) -> Seq<Seq<u8>>
    decreases s.len(),
{
    if s.len() == 0 {
        Seq::empty()
    } else {
        let i = first_nl(s);
        if i < 0 || i >= s.len() {
            seq![strip_cr(s)]
        } else {
            seq![strip_cr(s.take(i))] + split_lines(s.skip(i + 1))
        }
    }
}

/// Lines joined back with CRLF after each one.
pub open spec fn crlf_join(ls: Seq<Seq<u8>>) -> Seq<u8>
    decreases ls.len(),
{
    if ls.len() == 0 {
        Seq::empty()
    } else {
        ls[0] + seq![13u8, 10u8] + crlf_join(ls.drop_first())
    }
}

proof fn lemma_first_nl(s: Seq<u8>)
    ensures
        0 <= first_nl(s) <= s.len(),
        forall|j: int| 0 <= j < first_nl(s) ==> s[j] != 10u8,
        first_nl(s) < s.len() ==> s[first_nl(s)] == 10u8,
    decreases s.len(),
{
    if s.len() > 0 && s[0] != 10u8 {
        lemma_first_nl(s.drop_first());
        assert forall|j: int| 0 <= j < first_nl(s) implies s[j] != 10u8 by {
            if j > 0 {
                assert(s.drop_first()[j - 1] == s[j]);
            }
        }
    }
}

proof fn lemma_first_nl_is(s: Seq<u8>, k: int)
    requires
        0 <= k <= s.len(),
        forall|j: int| 0 <= j < k ==> s[j] != 10u8,
        k < s.len() ==> s[k] == 10u8,
    ensures
        first_nl(s) == k,
    decreases s.len(),
{
    if s.len() > 0 && k > 0 {
        assert(s[0] != 10u8);
        let t = s.drop_first();
        assert forall|j: int| 0 <= j < k - 1 implies t[j] != 10u8 by {
            assert(t[j] == s[j + 1]);
        }
        if k - 1 < t.len() {
            assert(t[k - 1] == s[k]);
        }
        lemma_first_nl_is(t, k - 1);
    }
}

/// Appends the CRLF-joined lines of `src` from byte offset `from` on.
#[verifier::rlimit(50)]
fn append_lines_crlf(src: &Vec<u8>, from: usize, out: &mut Vec<u8>)
    requires
        from <= src@.len(),
    ensures
        final(out)@ == old(out)@ + crlf_join(split_lines(src@.skip(from as int))),
    decreases src@.len() - from,
{
    let n = src.len();
    if from == n {
        proof {
            assert(src@.skip(from as int).len() == 0);
            assert(out@ =~= out@ + crlf_join(split_lines(src@.skip(from as int))));
        }
        return ;
    }
    let ghost tail = src@.skip(from as int);
    // find the next line feed
    let mut q: usize = from;
    while q < n && src[q] != 10u8
        invariant
            n == src@.len(),
            from <= q <= n,
            forall|j: int| from <= j < q ==> src@[j] != 10u8,
        decreases n - q,
    {
        q = q + 1;
    }
    proof {
        assert forall|j: int| 0 <= j < q - from implies tail[j] != 10u8 by {
            assert(tail[j] == src@[from + j]);
        }
        if (q as int) - (from as int) < tail.len() {
            assert(tail[q - from] == src@[q as int]);
        }
        lemma_first_nl_is(tail, q - from);
    }
    // the line's end, with a trailing carriage return stripped
    let end: usize = if q > from && src[q - 1] == 13u8 {
        q - 1
    } else {
        q
    };
    let ghost line = if q == n {
        strip_cr(tail)
    } else {
        strip_cr(tail.take(q - from))
    };
    proof {
        if q == n {
            assert(tail =~= src@.subrange(from as int, q as int));
        } else {
            assert(tail.take(q - from) =~= src@.subrange(from as int, q as int));
        }
        if q > from && src@[q - 1] == 13u8 {
            assert(src@.subrange(from as int, q as int).drop_last() =~= src@.subrange(
                from as int,
                end as int,
            ));
        }
        assert(line =~= src@.subrange(from as int, end as int));
    }
    let mut p: usize = from;
    while p < end
        invariant
            from <= p <= end,
            end <= n,
            n == src@.len(),
            out@ == old(out)@ + src@.subrange(from as int, p as int),
        decreases end - p,
    {
        out.push(src[p]);
        proof {
            assert(old(out)@ + src@.subrange(from as int, p + 1) =~= (old(out)@ + src@.subrange(
                from as int,
                p as int,
            )).push(src@[p as int]));
        }
        p = p + 1;
    }
    out.push(13u8);
    out.push(10u8);
    proof {
        assert(out@ =~= old(out)@ + (line + seq![13u8, 10u8]));
    }
    if q == n {
        proof {
            lemma_first_nl(tail);
            assert(split_lines(tail) =~= seq![line]);
            assert(crlf_join(seq![line]) =~= line + seq![13u8, 10u8]) by {
                reveal_with_fuel(crlf_join, 2);
                assert(seq![line].drop_first() =~= Seq::<Seq<u8>>::empty());
            }
        }
    } else {
        let ghost mid = out@;
        append_lines_crlf(src, q + 1, out);
        proof {
            assert(src@.skip(q + 1) =~= tail.skip(q - from + 1));
            assert(split_lines(tail) =~= seq![line] + split_lines(tail.skip(q - from + 1)));
            assert(crlf_join(seq![line] + split_lines(tail.skip(q - from + 1))) =~= line + seq![
                13u8,
                10u8,
            ] + crlf_join(split_lines(tail.skip(q - from + 1)))) by {
                let rest = split_lines(tail.skip(q - from + 1));
                assert((seq![line] + rest)[0] == line);
                assert((seq![line] + rest).drop_first() =~= rest);
            }
            assert(out@ =~= old(out)@ + crlf_join(split_lines(tail)));
        }
    }
}

/// The lines after the header line; nothing when there are no lines.
pub open spec fn tail_lines(s: Seq<u8>) -> Seq<Seq<u8>> {
    let ls = split_lines(s);
    if ls.len() == 0 {
        Seq::empty()
    } else {
        ls.skip(1)
    }
}

/// **Passthrough merge.** The merged localization asset: the existing
/// destination's bytes unchanged, followed by the incoming file's lines
/// after its header line, each terminated with CRLF.
pub fn merge_localization(existing: &Vec<u8>, incoming: &Vec<u8>) -> (r: Vec<u8>)
    ensures
        r@ == existing@ + crlf_join(tail_lines(incoming@)),
{
    let mut r: Vec<u8> = Vec::new();
    let n = existing.len();
    for i in 0..n
        invariant
            n == existing@.len(),
            r@ == existing@.take(i as int),
    {
        r.push(existing[i]);
        proof {
            assert(r@ =~= existing@.take(i + 1));
        }
    }
    proof {
        assert(existing@.take(n as int) =~= existing@);
    }
    // skip the incoming header line
    let m = incoming.len();
    let mut q: usize = 0;
    while q < m && incoming[q] != 10u8
        invariant
            m == incoming@.len(),
            q <= m,
            forall|j: int| 0 <= j < q ==> incoming@[j] != 10u8,
        decreases m - q,
    {
        q = q + 1;
    }
    proof {
        lemma_first_nl_is(incoming@, q as int);
    }
    if q == m {
        // a single header line (or nothing): nothing to append
        proof {
            if m == 0 {
                assert(split_lines(incoming@).len() == 0);
                assert(tail_lines(incoming@) =~= Seq::<Seq<u8>>::empty());
            } else {
                assert(split_lines(incoming@) =~= seq![strip_cr(incoming@)]);
                assert(tail_lines(incoming@).len() == 0);
            }
            assert(crlf_join(tail_lines(incoming@)) =~= Seq::<u8>::empty());
            assert(r@ =~= existing@ + crlf_join(tail_lines(incoming@)));
        }
        r
    } else {
        proof {
            assert(m > 0);
            assert(split_lines(incoming@) =~= seq![strip_cr(incoming@.take(q as int))]
                + split_lines(incoming@.skip(q + 1)));
            assert((seq![strip_cr(incoming@.take(q as int))] + split_lines(incoming@.skip(q + 1)))
                .skip(1) =~= split_lines(incoming@.skip(q + 1)));
            assert(tail_lines(incoming@) =~= split_lines(incoming@.skip(q + 1)));
        }
        append_lines_crlf(incoming, q + 1, &mut r);
        r
    }
}

} // verus!
