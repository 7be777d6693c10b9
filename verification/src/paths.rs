//! Relative-path helpers: `/`-separated components, the config-relative
//! part of an instruction file's path, and lowercased file extensions.

use vstd::prelude::*;
use crate::text::{char_str, lower_char, lower_char_spec, str_eq};
use vstd::string::StrSliceExecFns;
use vstd::string::StringExecFns;

verus! {

/// The views of a list of strings.
pub open spec fn strs_model(v: Seq<String>) -> Seq<Seq<char>> {
    v.map_values(|s: String| s@)
}

/// A sequence lowercased character by character.
pub open spec fn lower_seq(s: Seq<char>) -> Seq<char> {
    s.map_values(|c: char| lower_char_spec(c))
}

/// The `/`-separated components of a path. The empty path has one empty
/// component.
pub open spec fn split_path(s: Seq<char>) -> Seq<Seq<char>>
    decreases s.len(),
{
    if s.len() == 0 {
        seq![Seq::<char>::empty()]
    } else {
        let rest = split_path(s.drop_first());
        if s[0] == '/' {
            seq![Seq::<char>::empty()] + rest
        } else {
            seq![seq![s[0]] + rest[0]] + rest.drop_first()
        }
    }
}

pub proof fn lemma_split_path_len(s: Seq<char>)
    ensures
        split_path(s).len() >= 1,
    decreases s.len(),
{
    if s.len() > 0 {
        lemma_split_path_len(s.drop_first());
    }
}

proof fn lemma_split_path_push(s: Seq<char>, c: char)
    ensures
        split_path(s.push(c)) == if c == '/' {
            split_path(s).push(Seq::<char>::empty())
        } else {
            split_path(s).update(
                split_path(s).len() - 1,
                split_path(s)[split_path(s).len() - 1].push(c),
            )
        },
    decreases s.len(),
{
    lemma_split_path_len(s);
    if s.len() == 0 {
        reveal_with_fuel(split_path, 2);
        assert(s.push(c)[0] == c);
        assert(s.push(c).drop_first() =~= Seq::<char>::empty());
        if c == '/' {
            assert(split_path(s.push(c)) =~~= split_path(s).push(Seq::<char>::empty()));
        } else {
            assert(seq![c] + Seq::<char>::empty() =~= seq![c]);
            assert(split_path(s.push(c)) =~~= split_path(s).update(0, split_path(s)[0].push(c)));
        }
    } else {
        assert(s.push(c)[0] == s[0]);
        assert(s.push(c).drop_first() =~= s.drop_first().push(c));
        lemma_split_path_push(s.drop_first(), c);
        lemma_split_path_len(s.drop_first());
        if c == '/' {
            assert(split_path(s.push(c)) =~~= split_path(s).push(Seq::<char>::empty()));
        } else {
            assert(split_path(s.push(c)) =~~= split_path(s).update(
                split_path(s).len() - 1,
                split_path(s)[split_path(s).len() - 1].push(c),
            ));
        }
    }
}

/// Executable path splitting, proved equal to `split_path`.
pub fn split_path_exec(s: &str) -> (r: Vec<String>)
    ensures
        strs_model(r@) == split_path(s@),
{
    let n = s.unicode_len();
    let mut comps: Vec<String> = Vec::new();
    let mut cur = String::new();
    proof {
        assert(strs_model(comps@).push(cur@) =~~= split_path(s@.subrange(0, 0)));
    }
    for i in 0..n
        invariant
            n == s@.len(),
            strs_model(comps@).push(cur@) == split_path(s@.subrange(0, i as int)),
    {
        let ghost pre = s@.subrange(0, i as int);
        proof {
            lemma_split_path_push(pre, s@[i as int]);
            assert(s@.subrange(0, i + 1) =~= pre.push(s@[i as int]));
            lemma_split_path_len(pre);
        }
        let c = s.get_char(i);
        if c == '/' {
            comps.push(cur);
            cur = String::new();
            proof {
                assert(strs_model(comps@).push(cur@) =~~= split_path(s@.subrange(0, i + 1)));
            }
        } else {
            let cs = char_str(c);
            cur.append(cs.as_str());
            proof {
                assert(strs_model(comps@).push(cur@) =~~= split_path(s@.subrange(0, i + 1)));
            }
        }
    }
    comps.push(cur);
    proof {
        assert(s@.subrange(0, n as int) =~= s@);
    }
    comps
}

/// Path components joined back with `/`.
pub open spec fn join_path(ps: Seq<Seq<char>>) -> Seq<char>
    decreases ps.len(),
{
    if ps.len() == 0 {
        Seq::empty()
    } else if ps.len() == 1 {
        ps[0]
    } else {
        ps[0] + seq!['/'] + join_path(ps.drop_first())
    }
}

proof fn lemma_join_path_push(ps: Seq<Seq<char>>, p: Seq<char>)
    ensures
        join_path(ps.push(p)) == if ps.len() == 0 {
            p
        } else {
            join_path(ps) + seq!['/'] + p
        },
    decreases ps.len(),
{
    if ps.len() == 0 {
        assert(ps.push(p)[0] == p);
        assert(join_path(ps.push(p)) == p);
    } else if ps.len() == 1 {
        reveal_with_fuel(join_path, 3);
        assert(ps.push(p)[0] == ps[0]);
        assert(ps.push(p).drop_first() =~= seq![p]);
        assert(join_path(ps.push(p)) =~= join_path(ps) + seq!['/'] + p);
    } else {
        assert(ps.push(p)[0] == ps[0]);
        assert(ps.push(p).drop_first() =~= ps.drop_first().push(p));
        lemma_join_path_push(ps.drop_first(), p);
        assert(join_path(ps.push(p)) =~= join_path(ps) + seq!['/'] + p);
    }
}

/// Joins the components from the given index on with `/`.
fn join_from(comps: &Vec<String>, start: usize) -> (r: String)
    requires
        start <= comps@.len(),
    ensures
        r@ == join_path(strs_model(comps@).skip(start as int)),
{
    let mut r = String::new();
    let n = comps.len();
    proof {
        assert(strs_model(comps@).skip(start as int).take(0) =~~= Seq::<Seq<char>>::empty());
    }
    let mut j: usize = start;
    while j < n
        invariant
            start <= j <= n,
            n == comps@.len(),
            r@ == join_path(strs_model(comps@).skip(start as int).take(j - start)),
        decreases n - j,
    {
        let ghost pre = strs_model(comps@).skip(start as int).take(j - start);
        proof {
            lemma_join_path_push(pre, comps@[j as int]@);
            assert(strs_model(comps@).skip(start as int).take(j + 1 - start) =~~= pre.push(
                comps@[j as int]@,
            ));
        }
        if j > start {
            r.append("/");
            proof {
                reveal_strlit("/");
            }
        }
        r.append(comps[j].as_str());
        j = j + 1;
    }
    proof {
        assert(strs_model(comps@).skip(start as int).take(n - start) =~= strs_model(
            comps@,
        ).skip(start as int));
    }
    r
}

/// Lowercases a string character by character.
pub fn lower_str(s: &str) -> (r: String)
    ensures
        r@ == lower_seq(s@),
{
    let n = s.unicode_len();
    let mut r = String::new();
    proof {
        assert(lower_seq(s@.subrange(0, 0)) =~= Seq::<char>::empty());
    }
    for i in 0..n
        invariant
            n == s@.len(),
            r@ == lower_seq(s@.subrange(0, i as int)),
    {
        let c = lower_char(s.get_char(i));
        let cs = char_str(c);
        r.append(cs.as_str());
        proof {
            assert(lower_seq(s@.subrange(0, i + 1)) =~= lower_seq(s@.subrange(0, i as int)).push(
                lower_char_spec(s@[i as int]),
            ));
        }
    }
    proof {
        assert(s@.subrange(0, n as int) =~= s@);
    }
    r
}

/// The part of a path after its first `config` component (compared
/// case-insensitively); empty when there is none.
pub open spec fn config_rel_comps(cs: Seq<Seq<char>>) -> Seq<char>
    decreases cs.len(),
{
    if cs.len() == 0 {
        Seq::empty()
    } else if lower_seq(cs[0]) == "config"@ {
        join_path(cs.drop_first())
    } else {
        config_rel_comps(cs.drop_first())
    }
}

/// The config-relative name of an instruction file.
pub open spec fn config_rel(path: Seq<char>) -> Seq<char> {
    config_rel_comps(split_path(path))
}

/// Whether the path lies under a `config` component at all.
pub open spec fn under_config(cs: Seq<Seq<char>>) -> bool
    decreases cs.len(),
{
    if cs.len() == 0 {
        false
    } else if lower_seq(cs[0]) == "config"@ {
        cs.len() > 1
    } else {
        under_config(cs.drop_first())
    }
}

/// Executable config-relative name, proved equal to `config_rel`.
pub fn config_rel_exec(path: &str) -> (r: String)
    ensures
        r@ == config_rel(path@),
{
    let comps = split_path_exec(path);
    let n = comps.len();
    proof {
        assert(strs_model(comps@).skip(0) =~~= strs_model(comps@));
    }
    for j in 0..n
        invariant
            n == comps@.len(),
            config_rel(path@) == config_rel_comps(strs_model(comps@).skip(j as int)),
    {
        let low = lower_str(comps[j].as_str());
        proof {
            assert(strs_model(comps@).skip(j as int)[0] == comps@[j as int]@);
            assert(strs_model(comps@).skip(j as int).drop_first() =~~= strs_model(comps@).skip(
                j + 1,
            ));
        }
        if str_eq(low.as_str(), "config") {
            let r = join_from(&comps, j + 1);
            return r;
        }
    }
    proof {
        assert(strs_model(comps@).skip(n as int).len() == 0);
    }
    String::new()
}

/// Whether the path lies under a `config` component.
pub fn under_config_exec(path: &str) -> (r: bool)
    ensures
        r == under_config(split_path(path@)),
{
    let comps = split_path_exec(path);
    let n = comps.len();
    proof {
        assert(strs_model(comps@).skip(0) =~~= strs_model(comps@));
    }
    for j in 0..n
        invariant
            n == comps@.len(),
            under_config(split_path(path@)) == under_config(strs_model(comps@).skip(j as int)),
    {
        let low = lower_str(comps[j].as_str());
        proof {
            assert(strs_model(comps@).skip(j as int)[0] == comps@[j as int]@);
            assert(strs_model(comps@).skip(j as int).drop_first() =~~= strs_model(comps@).skip(
                j + 1,
            ));
        }
        if str_eq(low.as_str(), "config") {
            return j + 1 < n;
        }
    }
    proof {
        assert(strs_model(comps@).skip(n as int).len() == 0);
    }
    false
}

/// The index of the last `.` in a component, or a negative value when
/// there is none.
pub open spec fn last_dot(s: Seq<char>) -> int
    decreases s.len(),
{
    if s.len() == 0 {
        -1
    } else if s[s.len() - 1] == '.' {
        s.len() - 1
    } else {
        last_dot(s.drop_last())
    }
}

/// The lowercased extension of a path: what follows the last `.` of its
/// last component; empty when the component has no extension (a leading
/// dot alone names no extension).
pub open spec fn ext_of(path: Seq<char>) -> Seq<char> {
    let cs = split_path(path);
    let f = cs[cs.len() - 1];
    let d = last_dot(f);
    if d <= 0 {
        Seq::empty()
    } else {
        lower_seq(f.skip(d + 1))
    }
}

proof fn lemma_last_dot(s: Seq<char>)
    ensures
        -1 <= last_dot(s) < s.len(),
        last_dot(s) >= 0 ==> s[last_dot(s)] == '.',
        forall|j: int| last_dot(s) < j < s.len() ==> s[j] != '.',
    decreases s.len(),
{
    if s.len() > 0 && s[s.len() - 1] != '.' {
        lemma_last_dot(s.drop_last());
        assert forall|j: int| last_dot(s) < j < s.len() implies s[j] != '.' by {
            if j < s.len() - 1 {
                assert(s.drop_last()[j] == s[j]);
            }
        }
    }
}

proof fn lemma_last_dot_is(s: Seq<char>, k: int)
    requires
        -1 <= k < s.len(),
        k >= 0 ==> s[k] == '.',
        forall|j: int| k < j < s.len() ==> s[j] != '.',
    ensures
        last_dot(s) == k,
    decreases s.len(),
{
    if s.len() > 0 {
        if s[s.len() - 1] == '.' {
            assert(k == s.len() - 1);
        } else {
            assert(k < s.len() - 1);
            assert forall|j: int| k < j < s.drop_last().len() implies s.drop_last()[j] != '.' by {
                assert(s.drop_last()[j] == s[j]);
            }
            lemma_last_dot_is(s.drop_last(), k);
        }
    }
}

/// Executable extension extraction, proved equal to `ext_of`.
pub fn ext_exec(path: &str) -> (r: String)
    ensures
        r@ == ext_of(path@),
{
    let comps = split_path_exec(path);
    proof {
        lemma_split_path_len(path@);
    }
    let f = &comps[comps.len() - 1];
    let ghost fm = f@;
    let n = f.as_str().unicode_len();
    let mut k: usize = n;
    while k > 0 && f.as_str().get_char(k - 1) != '.'
        invariant
            n == fm.len(),
            k <= n,
            f@ == fm,
            forall|j: int| k <= j < n ==> fm[j] != '.',
        decreases k,
    {
        k = k - 1;
    }
    if k == 0 {
        proof {
            lemma_last_dot_is(fm, -1);
        }
        String::new()
    } else {
        proof {
            lemma_last_dot_is(fm, k - 1);
        }
        if k == 1 {
            String::new()
        } else {
            let e = f.as_str().substring_char(k, n);
            let r = lower_str(e);
            proof {
                assert(fm.subrange(k as int, n as int) =~= fm.skip(k as int));
            }
            r
        }
    }
}

} // verus!
