//! The package engine: loads' outcomes are checked fail-fast, the loaded
//! modlets are sorted by name, their instruction files are grouped by
//! config-relative path in a path-ordered map, and each group is merged
//! into one provenance-commented bundle; passthrough files get a
//! deterministic copy-or-append plan.

use vstd::prelude::*;
use crate::command::cmds_model;
use crate::events::{EvModel, XmlEvent, evs_model};
use crate::modlet::{
    Modlet, ModletError, files_model, path_name, xml_filenames, xmls_events_for,
};
use crate::paths::{lower_seq, strs_model};
use crate::text::{
    lex_le, lemma_lex_le_antisymmetric, lemma_lex_le_total, lemma_lex_le_transitive, str_eq,
    str_le,
};
use vstd::multiset::Multiset;
use vstd::seq_lib::group_to_multiset_ensures;
use vstd::string::StringExecFns;

verus! {

/// The name a modlet is ordered by.
pub open spec fn mname(m: Modlet) -> Seq<char> {
    path_name(m.path@)
}

/// Sorted by modlet name, lexicographically.
pub open spec fn sorted_modlets(ms: Seq<Modlet>) -> bool {
    forall|i: int, j: int|
        0 <= i < j < ms.len() ==> lex_le(mname(#[trigger] ms[i]), mname(#[trigger] ms[j]))
}

/// No two modlets share a name.
pub open spec fn distinct_names(ms: Seq<Modlet>) -> bool {
    forall|i: int, j: int|
        0 <= i < j < ms.len() ==> mname(#[trigger] ms[i]) != mname(#[trigger] ms[j])
}

/// Sorts modlets by name. This ordering is the sole source of merge-order
/// determinism, whatever order the loads completed in.
pub fn sort_modlets(ms: Vec<Modlet>) -> (r: Vec<Modlet>)
    ensures
        sorted_modlets(r@),
        r@.to_multiset() == ms@.to_multiset(),
{
    broadcast use group_to_multiset_ensures;

    let mut r: Vec<Modlet> = Vec::new();
    let mut src = ms;
    let ghost total = src@.to_multiset();
    proof {
        assert(r@.to_multiset().add(src@.to_multiset()) =~= src@.to_multiset());
    }
    while src.len() > 0
        invariant
            sorted_modlets(r@),
            r@.to_multiset().add(src@.to_multiset()) == total,
        decreases src@.len(),
    {
        let ghost srcpre = src@;
        let m = src.remove(0);
        proof {
            srcpre.to_multiset_ensures();
            assert(srcpre.remove(0).to_multiset() =~= srcpre.to_multiset().remove(srcpre[0]));
            assert(src@ =~= srcpre.remove(0));
        }
        let name = m.name();
        // find the first position whose element's name is not <= the new name
        let mut j: usize = 0;
        let rlen = r.len();
        while j < rlen && le_name(&r, j, name.as_str())
            invariant
                rlen == r@.len(),
                j <= rlen,
                forall|k: int| 0 <= k < j ==> lex_le(mname(#[trigger] r@[k]), name@),
            decreases rlen - j,
        {
            j = j + 1;
        }
        proof {
            if j < rlen {
                lemma_lex_le_total(mname(r@[j as int]), name@);
                assert(lex_le(name@, mname(r@[j as int])));
            }
        }
        let ghost rpre = r@;
        r.insert(j, m);
        proof {
            assert(r@ =~= rpre.insert(j as int, m));
            assert(mname(m) == name@);
            assert forall|a: int, b: int| 0 <= a < b < r@.len() implies lex_le(
                mname(#[trigger] r@[a]),
                mname(#[trigger] r@[b]),
            ) by {
                if b < j {
                    assert(r@[a] == rpre[a] && r@[b] == rpre[b]);
                } else if b == j {
                    assert(r@[a] == rpre[a] && r@[b] == m);
                } else {
                    assert(r@[b] == rpre[b - 1]);
                    if a < j {
                        assert(r@[a] == rpre[a]);
                        assert(a < b - 1);
                    } else if a == j {
                        assert(r@[a] == m);
                        if b - 1 > j {
                            lemma_lex_le_transitive(
                                name@,
                                mname(rpre[j as int]),
                                mname(rpre[b - 1]),
                            );
                        }
                    } else {
                        assert(r@[a] == rpre[a - 1]);
                    }
                }
            }
            assert(r@.to_multiset() =~= rpre.to_multiset().insert(m)) by {
                rpre.take(j as int).to_multiset_ensures();
                assert(rpre.insert(j as int, m) =~= rpre.take(j as int).push(m) + rpre.skip(
                    j as int,
                ));
                lemma_multiset_concat(rpre.take(j as int).push(m), rpre.skip(j as int));
                lemma_multiset_concat(rpre.take(j as int), rpre.skip(j as int));
                assert(rpre.take(j as int) + rpre.skip(j as int) =~= rpre);
            }
            assert(r@.to_multiset().add(src@.to_multiset()) =~= total);
        }
    }
    proof {
        assert(src@ =~= Seq::<Modlet>::empty());
        assert(src@.to_multiset() =~= Multiset::<Modlet>::empty());
        assert(r@.to_multiset() =~= total);
    }
    r
}

proof fn lemma_multiset_concat(a: Seq<Modlet>, b: Seq<Modlet>)
    ensures
        (a + b).to_multiset() == a.to_multiset().add(b.to_multiset()),
{
    vstd::seq_lib::lemma_multiset_commutative(a, b);
}

/// Whether the modlet at the index is named at-or-before the given name.
fn le_name(r: &Vec<Modlet>, j: usize, name: &str) -> (b: bool)
    requires
        j < r@.len(),
    ensures
        b == lex_le(mname(r@[j as int]), name@),
{
    let nj = r[j].name();
    str_le(nj.as_str(), name)
}

/// **Determinism.** Two sorted arrangements of the same modlet set agree
/// completely when no two modlets share a name: the sorted order, and
/// with it everything the package engine derives from it, is unique.
pub proof fn lemma_sorted_unique(a: Seq<Modlet>, b: Seq<Modlet>)
    requires
        a.to_multiset() == b.to_multiset(),
        sorted_modlets(a),
        sorted_modlets(b),
        distinct_names(a),
    ensures
        a == b,
    decreases a.len(),
{
    broadcast use group_to_multiset_ensures;

    a.to_multiset_ensures();
    b.to_multiset_ensures();
    assert(a.to_multiset().len() == b.to_multiset().len());
    assert(a.len() == b.len());
    if a.len() == 0 {
        assert(a =~= b);
    } else {
        assert(a.contains(a[0])) by {
            assert(a[0] == a[0] && 0 < a.len());
        }
        assert(a.to_multiset().count(a[0]) > 0);
        assert(b.to_multiset().count(a[0]) > 0);
        assert(b.contains(a[0]));
        let k = choose|k: int| 0 <= k < b.len() && b[k] == a[0];
        assert(b.contains(b[0])) by {
            assert(b[0] == b[0] && 0 < b.len());
        }
        assert(b.to_multiset().count(b[0]) > 0);
        assert(a.to_multiset().count(b[0]) > 0);
        assert(a.contains(b[0]));
        let l = choose|l: int| 0 <= l < a.len() && a[l] == b[0];
        if k > 0 {
            assert(lex_le(mname(b[0]), mname(b[k])));
        } else {
            lemma_lex_le_total(mname(b[0]), mname(b[0]));
        }
        if l > 0 {
            assert(lex_le(mname(a[0]), mname(a[l])));
        } else {
            lemma_lex_le_total(mname(a[0]), mname(a[0]));
        }
        lemma_lex_le_antisymmetric(mname(a[0]), mname(b[0]));
        assert(mname(a[0]) == mname(b[0]));
        if l != 0 {
            assert(mname(a[0]) != mname(a[l]));
            assert(false);
        }
        assert(a[0] == b[0]);
        let ar = a.drop_first();
        let br = b.drop_first();
        assert(ar =~= a.remove(0));
        assert(br =~= b.remove(0));
        assert(ar.to_multiset() == br.to_multiset()) by {
            assert(a.remove(0).to_multiset() =~= a.to_multiset().remove(a[0]));
            assert(b.remove(0).to_multiset() =~= b.to_multiset().remove(b[0]));
        }
        assert forall|i: int, j: int| 0 <= i < j < ar.len() implies lex_le(
            mname(#[trigger] ar[i]),
            mname(#[trigger] ar[j]),
        ) && mname(ar[i]) != mname(ar[j]) by {
            assert(ar[i] == a[i + 1]);
            assert(ar[j] == a[j + 1]);
        }
        assert forall|i: int, j: int| 0 <= i < j < br.len() implies lex_le(
            mname(#[trigger] br[i]),
            mname(#[trigger] br[j]),
        ) by {
            assert(br[i] == b[i + 1]);
            assert(br[j] == b[j + 1]);
        }
        lemma_sorted_unique(ar, br);
        assert(a =~= seq![a[0]] + ar);
        assert(b =~= seq![b[0]] + br);
    }
}

/// One group of the file-contribution map.
pub type GroupModel = (Seq<char>, Seq<int>);

pub open spec fn idxs_model(v: Seq<usize>) -> Seq<int> {
    v.map_values(|u: usize| u as int)
}

pub open spec fn groups_model(gs: Seq<(String, Vec<usize>)>) -> Seq<GroupModel> {
    gs.map_values(|g: (String, Vec<usize>)| (g.0@, idxs_model(g.1@)))
}

/// Inserts one contribution into the path-ordered map: an existing group
/// with the same path gains the index; otherwise a fresh group is placed
/// before the first path that orders after it.
pub open spec fn fm_insert(gs: Seq<GroupModel>, f: Seq<char>, i: int) -> Seq<GroupModel>
    decreases gs.len(),
{
    if gs.len() == 0 {
        seq![(f, seq![i])]
    } else if gs[0].0 == f {
        seq![(gs[0].0, gs[0].1.push(i))] + gs.drop_first()
    } else if lex_le(f, gs[0].0) {
        seq![(f, seq![i])] + gs
    } else {
        seq![gs[0]] + fm_insert(gs.drop_first(), f, i)
    }
}

/// One modlet's instruction-file names, added to the map in order.
pub open spec fn fm_add_files(gs: Seq<GroupModel>, fs: Seq<Seq<char>>, i: int) -> Seq<GroupModel>
    decreases fs.len(),
{
    if fs.len() == 0 {
        gs
    } else {
        fm_add_files(fm_insert(gs, fs[0], i), fs.drop_first(), i)
    }
}

pub open spec fn fm_spec_from(ms: Seq<Modlet>, i: int, gs: Seq<GroupModel>) -> Seq<GroupModel>
    decreases ms.len() - i,
{
    if i < 0 || i >= ms.len() {
        gs
    } else {
        fm_spec_from(ms, i + 1, fm_add_files(gs, xml_filenames(ms[i].xmls@), i))
    }
}

/// The file-contribution map of the sorted modlets: config-relative path
/// to the contributing modlets' indices, ordered by path.
pub open spec fn file_map_spec(ms: Seq<Modlet>) -> Seq<GroupModel> {
    fm_spec_from(ms, 0, Seq::empty())
}

/// Every group's indices name modlets, and no group is empty.
pub open spec fn fm_bounded(gs: Seq<GroupModel>, n: int) -> bool {
    forall|a: int|
        0 <= a < gs.len() ==> (#[trigger] gs[a]).1.len() > 0 && (forall|x: int|
            0 <= x < gs[a].1.len() ==> 0 <= #[trigger] gs[a].1[x] < n)
}

proof fn lemma_fm_insert_bounded(gs: Seq<GroupModel>, f: Seq<char>, i: int, n: int)
    requires
        fm_bounded(gs, n),
        0 <= i < n,
    ensures
        fm_bounded(fm_insert(gs, f, i), n),
    decreases gs.len(),
{
    if gs.len() == 0 {
    } else if gs[0].0 == f {
        let r = fm_insert(gs, f, i);
        assert forall|a: int| 0 <= a < r.len() implies (#[trigger] r[a]).1.len() > 0 && (forall|
            x: int,
        |
            0 <= x < r[a].1.len() ==> 0 <= #[trigger] r[a].1[x] < n) by {
            if a == 0 {
                assert(gs[0].1.len() > 0);
                assert forall|x: int| 0 <= x < r[0].1.len() implies 0 <= #[trigger] r[0].1[x]
                    < n by {
                    if x < gs[0].1.len() {
                        assert(r[0].1[x] == gs[0].1[x]);
                    }
                }
            } else {
                assert(r[a] == gs[a]);
            }
        }
    } else if lex_le(f, gs[0].0) {
        let r = fm_insert(gs, f, i);
        assert forall|a: int| 0 <= a < r.len() implies (#[trigger] r[a]).1.len() > 0 && (forall|
            x: int,
        |
            0 <= x < r[a].1.len() ==> 0 <= #[trigger] r[a].1[x] < n) by {
            if a > 0 {
                assert(r[a] == gs[a - 1]);
            }
        }
    } else {
        assert forall|a: int| 0 <= a < gs.drop_first().len() implies (#[trigger] gs.drop_first()[a]).1.len()
            > 0 && (forall|x: int|
            0 <= x < gs.drop_first()[a].1.len() ==> 0 <= #[trigger] gs.drop_first()[a].1[x]
                < n) by {
            assert(gs.drop_first()[a] == gs[a + 1]);
        }
        lemma_fm_insert_bounded(gs.drop_first(), f, i, n);
        let r = fm_insert(gs, f, i);
        let rr = fm_insert(gs.drop_first(), f, i);
        assert forall|a: int| 0 <= a < r.len() implies (#[trigger] r[a]).1.len() > 0 && (forall|
            x: int,
        |
            0 <= x < r[a].1.len() ==> 0 <= #[trigger] r[a].1[x] < n) by {
            if a > 0 {
                assert(r[a] == rr[a - 1]);
            } else {
                assert(r[0] == gs[0]);
            }
        }
    }
}

proof fn lemma_fm_add_files_bounded(gs: Seq<GroupModel>, fs: Seq<Seq<char>>, i: int, n: int)
    requires
        fm_bounded(gs, n),
        0 <= i < n,
    ensures
        fm_bounded(fm_add_files(gs, fs, i), n),
    decreases fs.len(),
{
    if fs.len() > 0 {
        lemma_fm_insert_bounded(gs, fs[0], i, n);
        lemma_fm_add_files_bounded(fm_insert(gs, fs[0], i), fs.drop_first(), i, n);
    }
}

proof fn lemma_fm_spec_from_bounded(ms: Seq<Modlet>, i: int, gs: Seq<GroupModel>)
    requires
        fm_bounded(gs, ms.len() as int),
        0 <= i,
    ensures
        fm_bounded(fm_spec_from(ms, i, gs), ms.len() as int),
    decreases ms.len() - i,
{
    if i < ms.len() {
        lemma_fm_add_files_bounded(gs, xml_filenames(ms[i].xmls@), i, ms.len() as int);
        lemma_fm_spec_from_bounded(ms, i + 1, fm_add_files(gs, xml_filenames(ms[i].xmls@), i));
    }
}

/// Inserts one contribution into the executable map.
fn fm_insert_exec(gs: &mut Vec<(String, Vec<usize>)>, f: &String, i: usize)
    ensures
        groups_model(final(gs)@) == fm_insert(groups_model(old(gs)@), f@, i as int),
{
    let n = gs.len();
    let ghost g0 = groups_model(gs@);
    let mut j: usize = 0;
    proof {
        assert(g0.skip(0) =~~= g0);
        assert(g0.take(0) + fm_insert(g0.skip(0), f@, i as int) =~~= fm_insert(g0, f@, i as int));
    }
    loop
        invariant
            n == gs@.len(),
            j <= n,
            groups_model(gs@) == g0,
            g0 == groups_model(old(gs)@),
            fm_insert(g0, f@, i as int) == g0.take(j as int) + fm_insert(
                g0.skip(j as int),
                f@,
                i as int,
            ),
        decreases n - j,
    {
        if j == n {
            let mut nv: Vec<usize> = Vec::new();
            nv.push(i);
            let ghost pre = gs@;
            gs.push((f.clone(), nv));
            proof {
                assert(g0.skip(n as int).len() == 0);
                assert(idxs_model(nv@) =~= seq![i as int]);
                assert(groups_model(gs@) =~~= g0.take(n as int).push((f@, seq![i as int])));
                assert(g0.take(n as int) =~~= g0);
                assert(groups_model(gs@) =~~= fm_insert(g0, f@, i as int));
            }
            return ;
        }
        proof {
            assert(g0.skip(j as int)[0] == g0[j as int]);
            assert(g0[j as int] == (gs@[j as int].0@, idxs_model(gs@[j as int].1@)));
            assert(g0.skip(j as int).drop_first() =~~= g0.skip(j + 1));
        }
        if str_eq(gs[j].0.as_str(), f.as_str()) {
            let (key, mut idxs) = gs.remove(j);
            let ghost idxs0 = idxs_model(idxs@);
            idxs.push(i);
            proof {
                assert(idxs_model(idxs@) =~= idxs0.push(i as int));
            }
            let ghost mid = gs@;
            gs.insert(j, (key, idxs));
            proof {
                assert(groups_model(gs@) =~~= g0.take(j as int) + (seq![
                    (g0[j as int].0, g0[j as int].1.push(i as int)),
                ] + g0.skip(j + 1)));
                assert(groups_model(gs@) =~~= fm_insert(g0, f@, i as int));
            }
            return ;
        }
        if str_le(f.as_str(), gs[j].0.as_str()) {
            let mut nv: Vec<usize> = Vec::new();
            nv.push(i);
            gs.insert(j, (f.clone(), nv));
            proof {
                assert(idxs_model(nv@) =~= seq![i as int]);
                assert(groups_model(gs@) =~~= g0.take(j as int) + (seq![(f@, seq![i as int])]
                    + g0.skip(j as int)));
                assert(groups_model(gs@) =~~= fm_insert(g0, f@, i as int));
            }
            return ;
        }
        proof {
            assert(fm_insert(g0.skip(j as int), f@, i as int) =~~= seq![g0[j as int]] + fm_insert(
                g0.skip(j + 1),
                f@,
                i as int,
            ));
            assert(g0.take(j as int) + (seq![g0[j as int]] + fm_insert(g0.skip(j + 1), f@, i as int))
                =~~= g0.take(j + 1) + fm_insert(g0.skip(j + 1), f@, i as int));
        }
        j = j + 1;
    }
}

/// Builds the file-contribution map over the sorted modlets: for each
/// config-relative path, which modlets contribute instructions to it.
pub fn file_map(modlets: &Vec<Modlet>) -> (r: Vec<(String, Vec<usize>)>)
    ensures
        groups_model(r@) == file_map_spec(modlets@),
        fm_bounded(groups_model(r@), modlets@.len() as int),
{
    let mut gs: Vec<(String, Vec<usize>)> = Vec::new();
    let n = modlets.len();
    proof {
        assert(groups_model(gs@) =~~= Seq::<GroupModel>::empty());
    }
    for i in 0..n
        invariant
            n == modlets@.len(),
            fm_spec_from(modlets@, i as int, groups_model(gs@)) == file_map_spec(modlets@),
    {
        let files = modlets[i].xml_files();
        let fn_count = files.len();
        let ghost fnames = strs_model(files@);
        let ghost gin = groups_model(gs@);
        proof {
            assert(fnames == xml_filenames(modlets@[i as int].xmls@));
            assert(fnames.skip(0) =~~= fnames);
        }
        for j in 0..fn_count
            invariant
                fn_count == files@.len(),
                fnames == strs_model(files@),
                fm_add_files(groups_model(gs@), fnames.skip(j as int), i as int) == fm_add_files(
                    gin,
                    fnames,
                    i as int,
                ),
        {
            proof {
                assert(fnames.skip(j as int)[0] == files@[j as int]@);
                assert(fnames.skip(j as int).drop_first() =~~= fnames.skip(j + 1));
            }
            fm_insert_exec(&mut gs, &files[j], i);
        }
        proof {
            assert(fnames.skip(fn_count as int).len() == 0);
            assert(fm_add_files(groups_model(gs@), fnames.skip(fn_count as int), i as int)
                == groups_model(gs@));
            assert(fm_spec_from(modlets@, i + 1, groups_model(gs@)) == file_map_spec(modlets@));
        }
    }
    proof {
        lemma_fm_spec_from_bounded(modlets@, 0, Seq::empty());
    }
    gs
}

/// The provenance comment written before a modlet's contribution.
pub open spec fn bundle_comment(name: Seq<char>) -> Seq<char> {
    " Included from "@ + name + " "@
}

/// The body of a bundle: for each contributing modlet in order, its
/// provenance comment and its instructions for the file, replayed.
pub open spec fn bundle_body(ms: Seq<Modlet>, idxs: Seq<int>, f: Seq<char>) -> Seq<EvModel>
    decreases idxs.len(),
{
    if idxs.len() == 0 {
        Seq::empty()
    } else if !(0 <= idxs[0] < ms.len()) {
        Seq::empty()
    } else {
        seq![EvModel::Comment { text: bundle_comment(mname(ms[idxs[0]])) }] + xmls_events_for(
            ms[idxs[0]].xmls@,
            f,
        ) + bundle_body(ms, idxs.drop_first(), f)
    }
}

proof fn lemma_bundle_body_push(ms: Seq<Modlet>, idxs: Seq<int>, x: int, f: Seq<char>)
    requires
        forall|k: int| 0 <= k < idxs.len() ==> 0 <= #[trigger] idxs[k] < ms.len(),
        0 <= x < ms.len(),
    ensures
        bundle_body(ms, idxs.push(x), f) == bundle_body(ms, idxs, f) + (seq![
            EvModel::Comment { text: bundle_comment(mname(ms[x])) },
        ] + xmls_events_for(ms[x].xmls@, f)),
    decreases idxs.len(),
{
    if idxs.len() == 0 {
        reveal_with_fuel(bundle_body, 2);
        assert(idxs.push(x)[0] == x);
        assert(idxs.push(x).drop_first() =~= Seq::<int>::empty());
        assert(bundle_body(ms, idxs.push(x), f) =~= bundle_body(ms, idxs, f) + (seq![
            EvModel::Comment { text: bundle_comment(mname(ms[x])) },
        ] + xmls_events_for(ms[x].xmls@, f)));
    } else {
        assert(idxs.push(x)[0] == idxs[0]);
        assert(idxs.push(x).drop_first() =~= idxs.drop_first().push(x));
        assert forall|k: int| 0 <= k < idxs.drop_first().len() implies 0 <= #[trigger] idxs.drop_first()[k]
            < ms.len() by {
            assert(idxs.drop_first()[k] == idxs[k + 1]);
        }
        lemma_bundle_body_push(ms, idxs.drop_first(), x, f);
        assert(bundle_body(ms, idxs.push(x), f) =~= bundle_body(ms, idxs, f) + (seq![
            EvModel::Comment { text: bundle_comment(mname(ms[x])) },
        ] + xmls_events_for(ms[x].xmls@, f)));
    }
}

/// The whole bundle: the literal `bundle` root element around the body.
pub open spec fn bundle_events(ms: Seq<Modlet>, idxs: Seq<int>, f: Seq<char>) -> Seq<EvModel> {
    seq![EvModel::Start { name: "bundle"@, attrs: Seq::empty() }] + bundle_body(ms, idxs, f)
        + seq![EvModel::End { name: "bundle"@ }]
}

/// Merges one grouped file: a single `bundle` root, and for each
/// contributing modlet in the given order a provenance comment followed
/// by a verbatim replay of that modlet's instructions for the file.
pub fn package(modlets: &Vec<Modlet>, idxs: &Vec<usize>, file: &String) -> (r: Vec<XmlEvent>)
    requires
        forall|x: int| 0 <= x < idxs@.len() ==> idxs@[x] < modlets@.len(),
    ensures
        evs_model(r@) == bundle_events(modlets@, idxs_model(idxs@), file@),
{
    let mut out: Vec<XmlEvent> = Vec::new();
    let attrs0: Vec<crate::events::Attr> = Vec::new();
    proof {
        assert(crate::events::attrs_model(attrs0@) =~= Seq::<crate::events::AttrModel>::empty());
    }
    out.push(XmlEvent::Start { name: String::from_str("bundle"), attrs: attrs0 });
    let ghost opened = evs_model(out@);
    proof {
        assert(opened =~= seq![EvModel::Start { name: "bundle"@, attrs: Seq::empty() }]);
        assert(idxs_model(idxs@).take(0) =~= Seq::<int>::empty());
        assert(opened + bundle_body(modlets@, idxs_model(idxs@).take(0), file@) =~= opened);
    }
    let n = idxs.len();
    for x in 0..n
        invariant
            n == idxs@.len(),
            forall|k: int| 0 <= k < idxs@.len() ==> idxs@[k] < modlets@.len(),
            evs_model(out@) == opened + bundle_body(
                modlets@,
                idxs_model(idxs@).take(x as int),
                file@,
            ),
    {
        let mi = idxs[x];
        let m = &modlets[mi];
        let name = m.name();
        let mut comment = String::from_str(" Included from ");
        comment.append(name.as_str());
        comment.append(" ");
        let ghost pre = evs_model(out@);
        out.push(XmlEvent::Comment { text: comment });
        proof {
            assert(evs_model(out@) =~= pre.push(
                EvModel::Comment { text: bundle_comment(mname(modlets@[mi as int])) },
            ));
        }
        m.write_xmls(&mut out, file.as_str());
        proof {
            assert forall|k: int| 0 <= k < idxs_model(idxs@).take(x as int).len() implies 0
                <= #[trigger] idxs_model(idxs@).take(x as int)[k] < modlets@.len() by {
                assert(idxs_model(idxs@).take(x as int)[k] == idxs@[k] as int);
            }
            lemma_bundle_body_push(
                modlets@,
                idxs_model(idxs@).take(x as int),
                mi as int,
                file@,
            );
            assert(idxs_model(idxs@).take(x + 1) =~= idxs_model(idxs@).take(x as int).push(
                mi as int,
            ));
            assert(evs_model(out@) =~= opened + bundle_body(
                modlets@,
                idxs_model(idxs@).take(x + 1),
                file@,
            ));
        }
    }
    let ghost pre_end = evs_model(out@);
    out.push(XmlEvent::End { name: String::from_str("bundle") });
    proof {
        assert(idxs_model(idxs@).take(n as int) =~= idxs_model(idxs@));
        assert(evs_model(out@) =~= pre_end.push(EvModel::End { name: "bundle"@ }));
        assert(evs_model(out@) =~= bundle_events(modlets@, idxs_model(idxs@), file@));
    }
    out
}


/// A passthrough file whose duplicates are merged line-wise rather than
/// skipped: a `localization` text asset.
pub open spec fn is_localization(p: Seq<char>) -> bool {
    lower_seq(path_name(p)) == "localization.txt"@
}

/// Executable test for a localization asset.
pub fn is_localization_exec(p: &str) -> (r: bool)
    ensures
        r == is_localization(p@),
{
    let comps = crate::paths::split_path_exec(p);
    proof {
        crate::paths::lemma_split_path_len(p@);
    }
    let last = &comps[comps.len() - 1];
    let low = crate::paths::lower_str(last.as_str());
    str_eq(low.as_str(), "localization.txt")
}

/// What to do with one passthrough file.
#[derive(Debug, Clone, Copy, PartialEq, Eq, Structural)]
pub enum PassKind {
    /// First contribution under this path: copy it.
    CopyNew,
    /// A later localization asset under an already-written path: strip its
    /// header line and append the rest to the destination.
    AppendLocalization,
    /// Any other duplicate: the first writer has won.
    SkipDuplicate,
}

/// One planned passthrough step: which modlet's file, and what to do.
#[derive(Debug, Clone, PartialEq)]
pub struct PassAction {
    pub modlet: usize,
    pub path: String,
    pub kind: PassKind,
}

pub open spec fn actions_model(v: Seq<PassAction>) -> Seq<(int, Seq<char>, PassKind)> {
    v.map_values(|a: PassAction| (a.modlet as int, a.path@, a.kind))
}

/// All (modlet index, passthrough path) pairs from the given index on, in
/// sorted-modlet order.
pub open spec fn pass_pairs_from(ms: Seq<Modlet>, i: int) -> Seq<(int, Seq<char>)>
    decreases ms.len() - i,
{
    if i < 0 || i >= ms.len() {
        Seq::empty()
    } else {
        files_model(ms[i].files).map_values(|f: Seq<char>| (i, f)) + pass_pairs_from(ms, i + 1)
    }
}

pub open spec fn pass_pairs(ms: Seq<Modlet>) -> Seq<(int, Seq<char>)> {
    pass_pairs_from(ms, 0)
}

/// What happens to the pair at the given position: the first writer under
/// a path copies; a later localization asset appends; any other
/// duplicate is skipped.
pub open spec fn pass_kind_at(pairs: Seq<(int, Seq<char>)>, j: int) -> PassKind {
    if exists|k: int| 0 <= k < j && (#[trigger] pairs[k]).1 == pairs[j].1 {
        if is_localization(pairs[j].1) {
            PassKind::AppendLocalization
        } else {
            PassKind::SkipDuplicate
        }
    } else {
        PassKind::CopyNew
    }
}

/// The passthrough plan of the sorted modlets.
pub open spec fn pass_plan_spec(ms: Seq<Modlet>) -> Seq<(int, Seq<char>, PassKind)> {
    Seq::new(
        pass_pairs(ms).len(),
        |j: int| (pass_pairs(ms)[j].0, pass_pairs(ms)[j].1, pass_kind_at(pass_pairs(ms), j)),
    )
}

/// Whether one of the strings has the given view.
fn contains_str(v: &Vec<String>, s: &str) -> (r: bool)
    ensures
        r == strs_model(v@).contains(s@),
{
    let n = v.len();
    for i in 0..n
        invariant
            n == v@.len(),
            forall|k: int| 0 <= k < i ==> strs_model(v@)[k] != s@,
    {
        proof {
            assert(strs_model(v@)[i as int] == v@[i as int]@);
        }
        if str_eq(v[i].as_str(), s) {
            proof {
                assert(strs_model(v@)[i as int] == s@);
            }
            return true;
        }
    }
    proof {
        if strs_model(v@).contains(s@) {
            let k = choose|k: int| 0 <= k < strs_model(v@).len() && strs_model(v@)[k] == s@;
            assert(false);
        }
    }
    false
}

/// Plans the passthrough copies over the sorted modlets: for each
/// modlet's opaque files in order, copy to the destination when the path
/// is fresh; append (header-stripped) when a localization asset repeats a
/// path; skip any other duplicate.
pub fn plan_passthrough(modlets: &Vec<Modlet>) -> (r: Vec<PassAction>)
    ensures
        actions_model(r@) == pass_plan_spec(modlets@),
{
    let mut acts: Vec<PassAction> = Vec::new();
    let mut seen: Vec<String> = Vec::new();
    let ghost pairs = pass_pairs(modlets@);
    let n = modlets.len();
    proof {
        assert(pairs.take(0) =~~= Seq::<(int, Seq<char>)>::empty());
        assert(pairs.take(0) + pass_pairs_from(modlets@, 0) =~~= pairs);
    }
    for i in 0..n
        invariant
            n == modlets@.len(),
            pairs == pass_pairs(modlets@),
            acts@.len() == seen@.len(),
            acts@.len() <= pairs.len(),
            pairs.take(acts@.len() as int) + pass_pairs_from(modlets@, i as int) == pairs,
            strs_model(seen@) == pairs.take(acts@.len() as int).map_values(
                |pr: (int, Seq<char>)| pr.1,
            ),
            actions_model(acts@) == pass_plan_spec(modlets@).take(acts@.len() as int),
    {
        let m = &modlets[i];
        match &m.files {
            None => {
                proof {
                    assert(files_model(modlets@[i as int].files) =~~= Seq::<Seq<char>>::empty());
                    assert(files_model(modlets@[i as int].files).map_values(
                        |f: Seq<char>| (i as int, f),
                    ) =~~= Seq::<(int, Seq<char>)>::empty());
                    assert(pass_pairs_from(modlets@, i as int) =~~= pass_pairs_from(
                        modlets@,
                        i + 1,
                    ));
                }
            },
            Some(fs) => {
                let fcount = fs.len();
                let ghost fm = strs_model(fs@);
                proof {
                    assert(fm == files_model(modlets@[i as int].files));
                    assert(fm.skip(0) =~~= fm);
                    assert(fm.skip(0).map_values(|f: Seq<char>| (i as int, f))
                        + pass_pairs_from(modlets@, i + 1) =~~= pass_pairs_from(
                        modlets@,
                        i as int,
                    ));
                }
                for j in 0..fcount
                    invariant
                        fcount == fs@.len(),
                        fm == strs_model(fs@),
                        n == modlets@.len(),
                        i < n,
                        fm == files_model(modlets@[i as int].files),
                        pairs == pass_pairs(modlets@),
                        acts@.len() == seen@.len(),
                        acts@.len() <= pairs.len(),
                        pairs.take(acts@.len() as int) + (fm.skip(j as int).map_values(
                            |f: Seq<char>| (i as int, f),
                        ) + pass_pairs_from(modlets@, i + 1)) == pairs,
                        strs_model(seen@) == pairs.take(acts@.len() as int).map_values(
                            |pr: (int, Seq<char>)| pr.1,
                        ),
                        actions_model(acts@) == pass_plan_spec(modlets@).take(acts@.len() as int),
                {
                    let f = &fs[j];
                    let ghost cnt = acts@.len() as int;
                    proof {
                        assert(fm.skip(j as int)[0] == fs@[j as int]@);
                        assert(fm.skip(j as int).map_values(|ff: Seq<char>| (i as int, ff))[0]
                            == (i as int, f@));
                        assert(pairs[cnt] == (i as int, f@));
                    }
                    let dup = contains_str(&seen, f.as_str());
                    proof {
                        let prev = pairs.take(cnt).map_values(|pr: (int, Seq<char>)| pr.1);
                        if dup {
                            let k = choose|k: int|
                                0 <= k < prev.len() && prev[k] == f@;
                            assert(pairs[k].1 == pairs.take(cnt)[k].1);
                            assert(exists|k2: int|
                                0 <= k2 < cnt && (#[trigger] pairs[k2]).1 == pairs[cnt].1);
                        } else {
                            if exists|k2: int|
                                0 <= k2 < cnt && (#[trigger] pairs[k2]).1 == pairs[cnt].1 {
                                let k2 = choose|k2: int|
                                    0 <= k2 < cnt && (#[trigger] pairs[k2]).1 == pairs[cnt].1;
                                assert(prev[k2] == pairs[k2].1);
                                assert(prev.contains(f@));
                                assert(false);
                            }
                        }
                    }
                    let kind: PassKind = if dup {
                        if is_localization_exec(f.as_str()) {
                            PassKind::AppendLocalization
                        } else {
                            PassKind::SkipDuplicate
                        }
                    } else {
                        PassKind::CopyNew
                    };
                    proof {
                        assert(kind == pass_kind_at(pairs, cnt));
                    }
                    let ghost acts_pre = actions_model(acts@);
                    let ghost seen_pre = strs_model(seen@);
                    acts.push(PassAction { modlet: i, path: f.clone(), kind });
                    seen.push(f.clone());
                    proof {
                        assert(actions_model(acts@) =~~= acts_pre.push((i as int, f@, kind)));
                        assert(pass_plan_spec(modlets@)[cnt] == (i as int, f@, kind));
                        assert(pass_plan_spec(modlets@).take(cnt + 1) =~~= pass_plan_spec(
                            modlets@,
                        ).take(cnt).push((i as int, f@, kind)));
                        assert(actions_model(acts@) =~~= pass_plan_spec(modlets@).take(cnt + 1));
                        assert(strs_model(seen@) =~~= seen_pre.push(f@));
                        assert(pairs.take(cnt + 1) =~~= pairs.take(cnt).push((i as int, f@)));
                        assert(strs_model(seen@) =~~= pairs.take(cnt + 1).map_values(
                            |pr: (int, Seq<char>)| pr.1,
                        ));
                        assert(fm.skip(j as int).map_values(|ff: Seq<char>| (i as int, ff))
                            .drop_first() =~~= fm.skip(j + 1).map_values(
                            |ff: Seq<char>| (i as int, ff),
                        ));
                        assert(pairs.take(cnt + 1) + (fm.skip(j + 1).map_values(
                            |ff: Seq<char>| (i as int, ff),
                        ) + pass_pairs_from(modlets@, i + 1)) =~~= pairs);
                    }
                }
                proof {
                    assert(fm.skip(fcount as int).map_values(|ff: Seq<char>| (i as int, ff)).len()
                        == 0);
                    assert(pairs.take(acts@.len() as int) + pass_pairs_from(modlets@, i + 1)
                        =~~= pairs);
                }
            },
        }
    }
    proof {
        assert(pass_pairs_from(modlets@, n as int).len() == 0);
        assert(pairs.take(acts@.len() as int) + pass_pairs_from(modlets@, n as int) =~~= pairs.take(
            acts@.len() as int,
        ));
        assert(acts@.len() == pairs.len());
        assert(actions_model(acts@) =~~= pass_plan_spec(modlets@));
    }
    acts
}


/// One load outcome, attributed to its own modlet path.
pub struct LoadOutcome {
    pub path: String,
    pub result: Result<Modlet, ModletError>,
}

/// The modlets of the successful loads, in arrival order.
pub open spec fn ok_modlets(ls: Seq<LoadOutcome>) -> Seq<Modlet>
    decreases ls.len(),
{
    if ls.len() == 0 {
        Seq::empty()
    } else {
        (match ls[0].result {
            Ok(m) => seq![m],
            Err(_) => Seq::empty(),
        }) + ok_modlets(ls.drop_first())
    }
}

/// The failed loads: each failing path with its reason, in arrival order.
pub open spec fn load_failures(ls: Seq<LoadOutcome>) -> Seq<(Seq<char>, ModletError)>
    decreases ls.len(),
{
    if ls.len() == 0 {
        Seq::empty()
    } else {
        (match ls[0].result {
            Ok(_) => Seq::empty(),
            Err(e) => seq![(ls[0].path@, e)],
        }) + load_failures(ls.drop_first())
    }
}

/// The fail-fast report of a run that loaded fewer modlets than asked.
#[derive(Debug, Clone, PartialEq)]
pub struct PartialPackageFailure {
    pub failures: Vec<(String, ModletError)>,
}

pub open spec fn failures_model(fs: Seq<(String, ModletError)>) -> Seq<(Seq<char>, ModletError)> {
    fs.map_values(|f: (String, ModletError)| (f.0@, f.1))
}

/// Everything one package run will write: for each grouped
/// config-relative path its bundle's markup events, the passthrough
/// steps, and the sorted modlets' source paths that the steps' indices
/// refer to — all fully determined by the sorted modlets.
#[derive(Debug, Clone, PartialEq)]
pub struct PackagePlan {
    pub bundles: Vec<(String, Vec<XmlEvent>)>,
    pub passthrough: Vec<PassAction>,
    pub modlet_paths: Vec<String>,
}

/// The source paths of the modlets, in order.
pub open spec fn modlet_paths_of(ms: Seq<Modlet>) -> Seq<Seq<char>> {
    ms.map_values(|m: Modlet| m.path@)
}

pub open spec fn bundles_model(bs: Seq<(String, Vec<XmlEvent>)>) -> Seq<(Seq<char>, Seq<EvModel>)> {
    bs.map_values(|b: (String, Vec<XmlEvent>)| (b.0@, evs_model(b.1@)))
}

/// Some sorted arrangement of the loaded modlets fully determines the
/// plan. With distinct modlet names that arrangement, and so the plan,
/// is unique (`lemma_sorted_unique`).
pub open spec fn plan_ok(plan: PackagePlan, loads: Seq<LoadOutcome>) -> bool {
    exists|ms: Seq<Modlet>|
        {
            &&& ms.to_multiset() == ok_modlets(loads).to_multiset()
            &&& sorted_modlets(ms)
            &&& #[trigger] plan_matches(plan, ms)
        }
}

/// The plan is exactly what the file-contribution map of the sorted
/// modlets prescribes, plus their passthrough plan.
pub open spec fn plan_matches(plan: PackagePlan, ms: Seq<Modlet>) -> bool {
    let fm = file_map_spec(ms);
    &&& bundles_model(plan.bundles@).len() == fm.len()
    &&& forall|g: int|
        0 <= g < fm.len() ==> #[trigger] bundles_model(plan.bundles@)[g] == (
            fm[g].0,
            bundle_events(ms, fm[g].1, fm[g].0),
        )
    &&& actions_model(plan.passthrough@) == pass_plan_spec(ms)
    &&& strs_model(plan.modlet_paths@) == modlet_paths_of(ms)
}

/// Decides one package run from its load outcomes. If any load failed,
/// the whole run aborts with the failing paths and reasons and nothing
/// is planned for writing; otherwise the loaded modlets are sorted by
/// name and the full write plan is produced from that order alone.
pub fn plan_package(loads: Vec<LoadOutcome>) -> (r: Result<PackagePlan, PartialPackageFailure>)
    ensures
        match r {
            Ok(plan) => {
                &&& load_failures(loads@).len() == 0
                &&& plan_ok(plan, loads@)
            },
            Err(f) => {
                &&& failures_model(f.failures@) == load_failures(loads@)
                &&& load_failures(loads@).len() > 0
            },
        },
{
    let mut ok: Vec<Modlet> = Vec::new();
    let mut failures: Vec<(String, ModletError)> = Vec::new();
    let mut src = loads;
    let ghost all = src@;
    proof {
        assert(ok_modlets(src@) =~= Seq::<Modlet>::empty() + ok_modlets(src@));
        assert(failures_model(failures@) =~= Seq::<(Seq<char>, ModletError)>::empty());
        assert(load_failures(src@) =~= Seq::<(Seq<char>, ModletError)>::empty() + load_failures(
            src@,
        ));
    }
    while src.len() > 0
        invariant
            ok@ + ok_modlets(src@) == ok_modlets(all),
            failures_model(failures@) + load_failures(src@) == load_failures(all),
        decreases src@.len(),
    {
        let ghost srcpre = src@;
        let outcome = src.remove(0);
        proof {
            assert(src@ =~= srcpre.drop_first());
            assert(srcpre[0] == outcome);
        }
        match outcome.result {
            Ok(m) => {
                let ghost okpre = ok@;
                ok.push(m);
                proof {
                    assert(ok@ =~= okpre.push(m));
                    assert(okpre.push(m) + ok_modlets(src@) =~= okpre + (seq![m] + ok_modlets(
                        src@,
                    )));
                }
            },
            Err(e) => {
                let ghost fpre = failures_model(failures@);
                let ghost ep = outcome.path@;
                let ghost ee = e;
                failures.push((outcome.path, e));
                proof {
                    assert(failures_model(failures@) =~= fpre.push((ep, ee)));
                    assert(fpre.push((ep, ee)) + load_failures(src@) =~= fpre + (seq![(ep, ee)]
                        + load_failures(src@)));
                }
            },
        }
    }
    proof {
        assert(src@ =~= Seq::<LoadOutcome>::empty());
        assert(ok_modlets(src@) =~= Seq::<Modlet>::empty());
        assert(load_failures(src@) =~= Seq::<(Seq<char>, ModletError)>::empty());
        assert(ok@ =~= ok_modlets(all));
        assert(failures_model(failures@) =~= load_failures(all));
    }
    if failures.len() > 0 {
        return Err(PartialPackageFailure { failures });
    }
    proof {
        assert(load_failures(all).len() == 0);
    }
    let sorted = sort_modlets(ok);
    let groups = file_map(&sorted);
    let mut bundles: Vec<(String, Vec<XmlEvent>)> = Vec::new();
    let gcount = groups.len();
    let ghost fm = file_map_spec(sorted@);
    for g in 0..gcount
        invariant
            gcount == groups@.len(),
            fm == file_map_spec(sorted@),
            groups_model(groups@) == fm,
            fm_bounded(fm, sorted@.len() as int),
            bundles_model(bundles@).len() == g,
            forall|h: int|
                0 <= h < g ==> #[trigger] bundles_model(bundles@)[h] == (
                    fm[h].0,
                    bundle_events(sorted@, fm[h].1, fm[h].0),
                ),
    {
        proof {
            assert(groups_model(groups@)[g as int] == (
                groups@[g as int].0@,
                idxs_model(groups@[g as int].1@),
            ));
            assert forall|x: int| 0 <= x < groups@[g as int].1@.len() implies groups@[g as int].1@[x]
                < sorted@.len() by {
                assert(fm[g as int].1[x] == groups@[g as int].1@[x] as int);
            }
        }
        let evs = package(&sorted, &groups[g].1, &groups[g].0);
        let ghost bpre = bundles_model(bundles@);
        bundles.push((groups[g].0.clone(), evs));
        proof {
            assert(bundles_model(bundles@) =~~= bpre.push((
                fm[g as int].0,
                bundle_events(sorted@, fm[g as int].1, fm[g as int].0),
            )));
        }
    }
    let passthrough = plan_passthrough(&sorted);
    let mut modlet_paths: Vec<String> = Vec::new();
    let scount = sorted.len();
    proof {
        assert(strs_model(modlet_paths@) =~~= modlet_paths_of(sorted@).take(0));
    }
    for s in 0..scount
        invariant
            scount == sorted@.len(),
            modlet_paths@.len() == s,
            strs_model(modlet_paths@) == modlet_paths_of(sorted@).take(s as int),
    {
        let ghost pre = modlet_paths@;
        modlet_paths.push(sorted[s].path.clone());
        proof {
            assert forall|j: int| 0 <= j < s + 1 implies strs_model(modlet_paths@)[j]
                == modlet_paths_of(sorted@).take(s + 1)[j] by {
                assert(strs_model(modlet_paths@)[j] == modlet_paths@[j]@);
                assert(modlet_paths_of(sorted@).take(s + 1)[j] == sorted@[j].path@);
                if j < s as int {
                    assert(modlet_paths@[j] == pre[j]);
                    assert(strs_model(pre)[j] == pre[j]@);
                    assert(modlet_paths_of(sorted@).take(s as int)[j] == sorted@[j].path@);
                }
            }
            assert(strs_model(modlet_paths@) =~= modlet_paths_of(sorted@).take(s + 1));
        }
    }
    proof {
        assert(modlet_paths_of(sorted@).take(scount as int) =~~= modlet_paths_of(sorted@));
    }
    let plan = PackagePlan { bundles, passthrough, modlet_paths };
    proof {
        let ms = sorted@;
        assert(plan_matches(plan, ms));
        assert(plan_ok(plan, all));
    }
    Ok(plan)
}


/// **Determinism, at the plan level.** Two runs over the same modlet set
/// (however the loads were interleaved and in whatever order they
/// finished) produce the same bundles and the same passthrough steps,
/// provided no two modlets share a name.
pub proof fn lemma_plan_deterministic(
    plan1: PackagePlan,
    plan2: PackagePlan,
    loads1: Seq<LoadOutcome>,
    loads2: Seq<LoadOutcome>,
)
    requires
        plan_ok(plan1, loads1),
        plan_ok(plan2, loads2),
        ok_modlets(loads1).to_multiset() == ok_modlets(loads2).to_multiset(),
        distinct_names(ok_modlets(loads1)),
    ensures
        bundles_model(plan1.bundles@) == bundles_model(plan2.bundles@),
        actions_model(plan1.passthrough@) == actions_model(plan2.passthrough@),
        strs_model(plan1.modlet_paths@) == strs_model(plan2.modlet_paths@),
{
    let ms1 = choose|ms: Seq<Modlet>|
        {
            &&& ms.to_multiset() == ok_modlets(loads1).to_multiset()
            &&& sorted_modlets(ms)
            &&& #[trigger] plan_matches(plan1, ms)
        };
    let ms2 = choose|ms: Seq<Modlet>|
        {
            &&& ms.to_multiset() == ok_modlets(loads2).to_multiset()
            &&& sorted_modlets(ms)
            &&& #[trigger] plan_matches(plan2, ms)
        };
    lemma_distinct_names_permutation(ok_modlets(loads1), ms1);
    assert(distinct_names(ms1));
    lemma_sorted_unique(ms1, ms2);
    let fm = file_map_spec(ms1);
    assert(bundles_model(plan1.bundles@) =~~= bundles_model(plan2.bundles@)) by {
        assert forall|g: int| 0 <= g < fm.len() implies bundles_model(plan1.bundles@)[g]
            == bundles_model(plan2.bundles@)[g] by {
            assert(bundles_model(plan1.bundles@)[g] == (fm[g].0, bundle_events(ms1, fm[g].1, fm[g].0)));
            assert(bundles_model(plan2.bundles@)[g] == (fm[g].0, bundle_events(ms2, fm[g].1, fm[g].0)));
        }
    }
}


/// Name distinctness depends only on which modlets are in the set, not
/// on their order.
pub proof fn lemma_distinct_names_permutation(a: Seq<Modlet>, b: Seq<Modlet>)
    requires
        a.to_multiset() == b.to_multiset(),
        distinct_names(a),
    ensures
        distinct_names(b),
    decreases a.len(),
{
    broadcast use group_to_multiset_ensures;

    a.to_multiset_ensures();
    b.to_multiset_ensures();
    assert(a.to_multiset().len() == b.to_multiset().len());
    assert(a.len() == b.len());
    if b.len() > 0 {
        assert(b.contains(b[0])) by {
            assert(b[0] == b[0] && 0 < b.len());
        }
        assert(b.to_multiset().count(b[0]) > 0);
        assert(a.to_multiset().count(b[0]) > 0);
        assert(a.contains(b[0]));
        let l = choose|l: int| 0 <= l < a.len() && a[l] == b[0];
        let ap = a.remove(l);
        let bp = b.drop_first();
        assert(bp =~= b.remove(0));
        assert(ap.to_multiset() == bp.to_multiset()) by {
            assert(a.remove(l).to_multiset() =~= a.to_multiset().remove(a[l]));
            assert(b.remove(0).to_multiset() =~= b.to_multiset().remove(b[0]));
        }
        assert forall|i: int, j: int| 0 <= i < j < ap.len() implies mname(#[trigger] ap[i])
            != mname(#[trigger] ap[j]) by {
            let i2 = if i < l {
                i
            } else {
                i + 1
            };
            let j2 = if j < l {
                j
            } else {
                j + 1
            };
            assert(ap[i] == a[i2]);
            assert(ap[j] == a[j2]);
        }
        lemma_distinct_names_permutation(ap, bp);
        // the first element's name is fresh among the rest
        assert forall|i: int, j: int| 0 <= i < j < b.len() implies mname(#[trigger] b[i]) != mname(
            #[trigger] b[j],
        ) by {
            if i == 0 {
                assert(bp.contains(b[j])) by {
                    assert(bp[j - 1] == b[j]);
                }
                assert(bp.to_multiset().count(b[j]) > 0);
                assert(ap.to_multiset().count(b[j]) > 0);
                assert(ap.contains(b[j]));
                let k = choose|k: int| 0 <= k < ap.len() && ap[k] == b[j];
                let k2 = if k < l {
                    k
                } else {
                    k + 1
                };
                assert(a[k2] == b[j]);
                assert(k2 != l);
                assert(mname(a[l]) != mname(a[k2])) by {
                    if l < k2 {
                        assert(mname(a[l]) != mname(a[k2]));
                    } else {
                        assert(mname(a[k2]) != mname(a[l]));
                    }
                }
            } else {
                assert(bp[i - 1] == b[i]);
                assert(bp[j - 1] == b[j]);
            }
        }
    }
}


/// A group's contributing indices never decrease.
pub open spec fn group_ascending(g: GroupModel) -> bool {
    forall|x: int, y: int| 0 <= x < y < g.1.len() ==> #[trigger] g.1[x] <= #[trigger] g.1[y]
}

/// Every group lists its contributors in ascending order.
pub open spec fn fm_ascending(gs: Seq<GroupModel>) -> bool {
    forall|a: int| 0 <= a < gs.len() ==> group_ascending(#[trigger] gs[a])
}

/// Every index in the map is at most the given one.
pub open spec fn fm_max_le(gs: Seq<GroupModel>, i: int) -> bool {
    forall|a: int, x: int|
        0 <= a < gs.len() && 0 <= x < gs[a].1.len() ==> #[trigger] gs[a].1[x] <= i
}

proof fn lemma_fm_insert_order(gs: Seq<GroupModel>, f: Seq<char>, i: int)
    requires
        fm_ascending(gs),
        fm_max_le(gs, i),
    ensures
        fm_ascending(fm_insert(gs, f, i)),
        fm_max_le(fm_insert(gs, f, i), i),
    decreases gs.len(),
{
    let r = fm_insert(gs, f, i);
    if gs.len() == 0 {
        assert forall|a: int| 0 <= a < r.len() implies group_ascending(#[trigger] r[a]) by {
            assert(r[0].1 =~= seq![i]);
        }
    } else if gs[0].0 == f {
        assert forall|a: int| 0 <= a < r.len() implies group_ascending(#[trigger] r[a]) by {
            if a == 0 {
                assert(r[0].1 =~= gs[0].1.push(i));
                assert forall|x: int, y: int| 0 <= x < y < r[0].1.len() implies #[trigger] r[0].1[x]
                    <= #[trigger] r[0].1[y] by {
                    if y < gs[0].1.len() {
                        assert(group_ascending(gs[0]));
                    } else {
                        assert(r[0].1[y] == i);
                        assert(gs[0].1[x] <= i);
                    }
                }
            } else {
                assert(r[a] == gs[a]);
            }
        }
        assert forall|a: int, x: int|
            0 <= a < r.len() && 0 <= x < r[a].1.len() implies #[trigger] r[a].1[x] <= i by {
            if a == 0 {
                if x < gs[0].1.len() {
                    assert(r[0].1[x] == gs[0].1[x]);
                }
            } else {
                assert(r[a] == gs[a]);
            }
        }
    } else if lex_le(f, gs[0].0) {
        assert forall|a: int| 0 <= a < r.len() implies group_ascending(#[trigger] r[a]) by {
            if a == 0 {
                assert(r[0].1 =~= seq![i]);
            } else {
                assert(r[a] == gs[a - 1]);
            }
        }
        assert forall|a: int, x: int|
            0 <= a < r.len() && 0 <= x < r[a].1.len() implies #[trigger] r[a].1[x] <= i by {
            if a == 0 {
                assert(r[0].1 =~= seq![i]);
            } else {
                assert(r[a] == gs[a - 1]);
            }
        }
    } else {
        assert forall|a: int| 0 <= a < gs.drop_first().len() implies group_ascending(
            #[trigger] gs.drop_first()[a],
        ) by {
            assert(gs.drop_first()[a] == gs[a + 1]);
        }
        assert forall|a: int, x: int|
            0 <= a < gs.drop_first().len() && 0 <= x < gs.drop_first()[a].1.len() implies #[trigger] gs.drop_first()[a].1[x]
            <= i by {
            assert(gs.drop_first()[a] == gs[a + 1]);
        }
        lemma_fm_insert_order(gs.drop_first(), f, i);
        let rr = fm_insert(gs.drop_first(), f, i);
        assert forall|a: int| 0 <= a < r.len() implies group_ascending(#[trigger] r[a]) by {
            if a == 0 {
                assert(r[0] == gs[0]);
            } else {
                assert(r[a] == rr[a - 1]);
            }
        }
        assert forall|a: int, x: int|
            0 <= a < r.len() && 0 <= x < r[a].1.len() implies #[trigger] r[a].1[x] <= i by {
            if a == 0 {
                assert(r[0] == gs[0]);
            } else {
                assert(r[a] == rr[a - 1]);
            }
        }
    }
}

proof fn lemma_fm_add_files_order(gs: Seq<GroupModel>, fs: Seq<Seq<char>>, i: int)
    requires
        fm_ascending(gs),
        fm_max_le(gs, i),
    ensures
        fm_ascending(fm_add_files(gs, fs, i)),
        fm_max_le(fm_add_files(gs, fs, i), i),
    decreases fs.len(),
{
    if fs.len() > 0 {
        lemma_fm_insert_order(gs, fs[0], i);
        lemma_fm_add_files_order(fm_insert(gs, fs[0], i), fs.drop_first(), i);
    }
}

proof fn lemma_fm_spec_from_order(ms: Seq<Modlet>, i: int, gs: Seq<GroupModel>)
    requires
        fm_ascending(gs),
        fm_max_le(gs, i - 1),
        0 <= i,
    ensures
        fm_ascending(fm_spec_from(ms, i, gs)),
    decreases ms.len() - i,
{
    if i < ms.len() {
        assert(fm_max_le(gs, i));
        lemma_fm_add_files_order(gs, xml_filenames(ms[i].xmls@), i);
        let gs2 = fm_add_files(gs, xml_filenames(ms[i].xmls@), i);
        lemma_fm_spec_from_order(ms, i + 1, gs2);
    }
}

/// **Ordering.** In every bundle the package engine plans over
/// name-sorted modlets, the contributions (and with them the provenance
/// comments) appear in ascending name order, whatever order the loads
/// completed in.
pub proof fn lemma_bundle_order(ms: Seq<Modlet>)
    requires
        sorted_modlets(ms),
    ensures
        forall|g: int, x: int, y: int|
            0 <= g < file_map_spec(ms).len() && 0 <= x < y < file_map_spec(ms)[g].1.len()
                ==> lex_le(
                mname(ms[#[trigger] file_map_spec(ms)[g].1[x]]),
                mname(ms[#[trigger] file_map_spec(ms)[g].1[y]]),
            ),
{
    let fm = file_map_spec(ms);
    assert(fm_ascending(fm)) by {
        lemma_fm_spec_from_order(ms, 0, Seq::empty());
    }
    assert(fm_bounded(fm, ms.len() as int)) by {
        lemma_fm_spec_from_bounded(ms, 0, Seq::empty());
    }
    assert forall|g: int, x: int, y: int|
        0 <= g < fm.len() && 0 <= x < y < fm[g].1.len() implies lex_le(
        mname(ms[#[trigger] fm[g].1[x]]),
        mname(ms[#[trigger] fm[g].1[y]]),
    ) by {
        let i1 = fm[g].1[x];
        let i2 = fm[g].1[y];
        assert(group_ascending(fm[g]));
        assert(i1 <= i2);
        assert(0 <= i1 < ms.len() && 0 <= i2 < ms.len());
        if i1 == i2 {
            lemma_lex_le_total(mname(ms[i1]), mname(ms[i2]));
        }
    }
}


/// The (path, contributor) pairs of one group.
pub open spec fn pair_ms(f: Seq<char>, idxs: Seq<int>) -> Multiset<(Seq<char>, int)>
    decreases idxs.len(),
{
    if idxs.len() == 0 {
        Multiset::empty()
    } else {
        pair_ms(f, idxs.drop_last()).insert((f, idxs.last()))
    }
}

/// All (path, contributor) pairs the file map holds.
pub open spec fn fm_pairs(gs: Seq<GroupModel>) -> Multiset<(Seq<char>, int)>
    decreases gs.len(),
{
    if gs.len() == 0 {
        Multiset::empty()
    } else {
        fm_pairs(gs.drop_first()).add(pair_ms(gs[0].0, gs[0].1))
    }
}

/// The pairs one modlet contributes: one per instruction file, under its
/// config-relative name.
pub open spec fn files_pairs(fs: Seq<Seq<char>>, i: int) -> Multiset<(Seq<char>, int)>
    decreases fs.len(),
{
    if fs.len() == 0 {
        Multiset::empty()
    } else {
        files_pairs(fs.drop_first(), i).insert((fs[0], i))
    }
}

/// The pairs the modlets from the given index on contribute.
pub open spec fn contrib_pairs(ms: Seq<Modlet>, i: int) -> Multiset<(Seq<char>, int)>
    decreases ms.len() - i,
{
    if i < 0 || i >= ms.len() {
        Multiset::empty()
    } else {
        files_pairs(xml_filenames(ms[i].xmls@), i).add(contrib_pairs(ms, i + 1))
    }
}

proof fn lemma_fm_insert_pairs(gs: Seq<GroupModel>, f: Seq<char>, i: int)
    ensures
        fm_pairs(fm_insert(gs, f, i)) == fm_pairs(gs).insert((f, i)),
    decreases gs.len(),
{
    let r = fm_insert(gs, f, i);
    if gs.len() == 0 {
        assert(r =~= seq![(f, seq![i])]);
        assert(r[0] == (f, seq![i]));
        assert(r.drop_first() =~= Seq::<GroupModel>::empty());
        assert(seq![i].drop_last() =~= Seq::<int>::empty());
        assert(pair_ms(f, seq![i]) =~= Multiset::<(Seq<char>, int)>::empty().insert((f, i))) by {
            reveal_with_fuel(pair_ms, 2);
        }
        assert(fm_pairs(r) == fm_pairs(r.drop_first()).add(pair_ms(r[0].0, r[0].1)));
        assert(fm_pairs(r) =~= fm_pairs(gs).insert((f, i)));
    } else if gs[0].0 == f {
        assert(r =~= seq![(gs[0].0, gs[0].1.push(i))] + gs.drop_first());
        assert(r[0] == (gs[0].0, gs[0].1.push(i)));
        assert(r.drop_first() =~= gs.drop_first());
        assert(gs[0].1.push(i).drop_last() =~= gs[0].1);
        assert(gs[0].1.push(i).last() == i);
        assert(pair_ms(f, gs[0].1.push(i)) =~= pair_ms(f, gs[0].1).insert((f, i)));
        assert(r.len() > 0);
        assert(fm_pairs(r) == fm_pairs(r.drop_first()).add(pair_ms(r[0].0, r[0].1)));
        assert(fm_pairs(gs) == fm_pairs(gs.drop_first()).add(pair_ms(gs[0].0, gs[0].1)));
        assert(fm_pairs(r) =~= fm_pairs(gs).insert((f, i)));
    } else if lex_le(f, gs[0].0) {
        assert(r =~= seq![(f, seq![i])] + gs);
        assert(r[0] == (f, seq![i]));
        assert(r.drop_first() =~= gs);
        assert(seq![i].drop_last() =~= Seq::<int>::empty());
        assert(pair_ms(f, seq![i]) =~= Multiset::<(Seq<char>, int)>::empty().insert((f, i))) by {
            reveal_with_fuel(pair_ms, 2);
        }
        assert(r.len() > 0);
        assert(fm_pairs(r) == fm_pairs(r.drop_first()).add(pair_ms(r[0].0, r[0].1)));
        assert(fm_pairs(r) =~= fm_pairs(gs).insert((f, i)));
    } else {
        lemma_fm_insert_pairs(gs.drop_first(), f, i);
        assert(r =~= seq![gs[0]] + fm_insert(gs.drop_first(), f, i));
        assert(r[0] == gs[0]);
        assert(r.drop_first() =~= fm_insert(gs.drop_first(), f, i));
        assert(fm_pairs(r) =~= fm_pairs(gs).insert((f, i)));
    }
}

proof fn lemma_fm_add_files_pairs(gs: Seq<GroupModel>, fs: Seq<Seq<char>>, i: int)
    ensures
        fm_pairs(fm_add_files(gs, fs, i)) == fm_pairs(gs).add(files_pairs(fs, i)),
    decreases fs.len(),
{
    if fs.len() == 0 {
        assert(fm_pairs(gs).add(files_pairs(fs, i)) =~= fm_pairs(gs));
    } else {
        lemma_fm_insert_pairs(gs, fs[0], i);
        lemma_fm_add_files_pairs(fm_insert(gs, fs[0], i), fs.drop_first(), i);
        assert(fm_pairs(fm_add_files(gs, fs, i)) =~= fm_pairs(gs).add(files_pairs(fs, i)));
    }
}

proof fn lemma_fm_spec_from_pairs(ms: Seq<Modlet>, i: int, gs: Seq<GroupModel>)
    requires
        0 <= i,
    ensures
        fm_pairs(fm_spec_from(ms, i, gs)) == fm_pairs(gs).add(contrib_pairs(ms, i)),
    decreases ms.len() - i,
{
    if i >= ms.len() {
        assert(fm_pairs(gs).add(contrib_pairs(ms, i)) =~= fm_pairs(gs));
    } else {
        let fs = xml_filenames(ms[i].xmls@);
        lemma_fm_add_files_pairs(gs, fs, i);
        lemma_fm_spec_from_pairs(ms, i + 1, fm_add_files(gs, fs, i));
        assert(fm_pairs(fm_spec_from(ms, i, gs)) =~= fm_pairs(gs).add(contrib_pairs(ms, i)));
    }
}

/// **Grouping.** The file-contribution map holds exactly the modlets'
/// contributions: each (config-relative path, contributing modlet) pair
/// occurs as often as that modlet has an instruction file under that
/// name — nothing is lost and nothing is invented by the grouping.
pub proof fn lemma_file_map_contributions(ms: Seq<Modlet>)
    ensures
        fm_pairs(file_map_spec(ms)) == contrib_pairs(ms, 0),
{
    lemma_fm_spec_from_pairs(ms, 0, Seq::empty());
    assert(fm_pairs(Seq::<GroupModel>::empty()).add(contrib_pairs(ms, 0)) =~= contrib_pairs(
        ms,
        0,
    ));
}

} // verus!
