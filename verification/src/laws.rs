//! The general laws of the generator, proved once and for all: purity of
//! generation, dependency ordering, cycle safety, override propagation,
//! and import merging.

use vstd::prelude::*;

use crate::generator::{
    archived_map, emission_order, entries_sorted, entry_archived, entry_deps, entry_ready,
    first_ready, gen_wf, set_archived, spec_generate, topo_main, unfinished, CodeGeneratorV,
    TypeEntryV,
};
use crate::strutil::{
    insert_uniq, lemma_lex_lt_asymmetric, lemma_lex_lt_irreflexive, lemma_lex_lt_total, lex_lt,
    sort_uniq,
};
use crate::types::{
    archived_ref, codec_expr, exports_for, modules_of, nm_lookup, ImportV, TypeDefV,
};

verus! {

// ------------------------------------------------------------------
// Purity
// ------------------------------------------------------------------

/// Purity of generation: the artifact is a function of the generator's
/// state alone, so rendering the same state twice yields byte-identical
/// output.
pub proof fn lemma_generation_pure(g: CodeGeneratorV, r1: Seq<char>, r2: Seq<char>)
    requires
        r1 == spec_generate(g),
        r2 == spec_generate(g),
    ensures
        r1 == r2,
{
}

/// Purity of template resolution: stamping the same template with the same
/// parameters under the same name map twice yields identical expressions.
pub proof fn lemma_resolution_pure(
    t: TypeDefV,
    m: Seq<(Seq<char>, Seq<char>)>,
    e1: Seq<char>,
    e2: Seq<char>,
)
    requires
        e1 == codec_expr(t, m),
        e2 == codec_expr(t, m),
    ensures
        e1 == e2,
{
}

// ------------------------------------------------------------------
// Override propagation
// ------------------------------------------------------------------

/// Looking a key up after appending a pair: an earlier binding still wins,
/// the new pair answers only for a fresh key.
proof fn lemma_nm_lookup_push(
    m: Seq<(Seq<char>, Seq<char>)>,
    p: (Seq<char>, Seq<char>),
    k: Seq<char>,
)
    ensures
        nm_lookup(m.push(p), k) == (if nm_lookup(m, k) is Some {
            nm_lookup(m, k)
        } else if p.0 == k {
            Option::Some(p.1)
        } else {
            Option::<Seq<char>>::None
        }),
    decreases m.len(),
{
    reveal_with_fuel(nm_lookup, 3);
    if m.len() == 0 {
        assert(m.push(p)[0] == p);
        assert(m.push(p).skip(1) =~= Seq::<(Seq<char>, Seq<char>)>::empty());
    } else {
        assert(m.push(p)[0] == m[0]);
        assert(m.push(p).skip(1) =~= m.skip(1).push(p));
        lemma_nm_lookup_push(m.skip(1), p, k);
    }
}

/// In a table whose entry at `i` is the only one named `es[i].name`, the
/// archived-name map resolves that name to entry `i`'s output identifier.
proof fn lemma_archived_map_lookup(es: Seq<TypeEntryV>, i: int)
    requires
        0 <= i < es.len(),
        forall|j: int| 0 <= j < es.len() && j != i ==> es[j].name != es[i].name,
    ensures
        nm_lookup(archived_map(es), es[i].name) == Option::Some(entry_archived(es[i])),
    decreases es.len(),
{
    let pre = es.drop_last();
    lemma_nm_lookup_push(
        archived_map(pre),
        (es.last().name, entry_archived(es.last())),
        es[i].name,
    );
    if i < es.len() - 1 {
        lemma_archived_map_lookup(pre, i);
    } else {
        lemma_archived_map_none(pre, es[i].name);
    }
}

/// A name no entry carries is absent from the archived-name map.
proof fn lemma_archived_map_none(es: Seq<TypeEntryV>, n: Seq<char>)
    requires
        forall|j: int| 0 <= j < es.len() ==> es[j].name != n,
    ensures
        nm_lookup(archived_map(es), n) is None,
    decreases es.len(),
{
    if es.len() > 0 {
        lemma_nm_lookup_push(
            archived_map(es.drop_last()),
            (es.last().name, entry_archived(es.last())),
            n,
        );
        lemma_archived_map_none(es.drop_last(), n);
    }
}

/// Strictly sorted entries have pairwise distinct names.
proof fn lemma_sorted_names_distinct(es: Seq<TypeEntryV>, i: int, j: int)
    requires
        entries_sorted(es),
        0 <= i < es.len(),
        0 <= j < es.len(),
        i != j,
    ensures
        es[i].name != es[j].name,
{
    if i < j {
        lemma_lex_lt_asymmetric(es[i].name, es[j].name);
    } else {
        lemma_lex_lt_asymmetric(es[j].name, es[i].name);
    }
}

/// Override propagation: once entry `b` is given the custom output name
/// `custom` — no matter whether before or after any referencing entry was
/// added — a named reference to `b` renders as `custom`, not as the
/// default convention.
pub proof fn lemma_override_propagation(g: CodeGeneratorV, i: int, custom: Seq<char>)
    requires
        gen_wf(g),
        0 <= i < g.entries.len(),
    ensures
        ({
            let entries2 = set_archived(g.entries, g.entries[i].name, custom);
            codec_expr(TypeDefV::Named(g.entries[i].name), archived_map(entries2)) == custom
        }),
{
    let b = g.entries[i].name;
    let entries2 = set_archived(g.entries, b, custom);
    assert(entries2[i].name == b);
    assert(entries2[i].archived_name == Option::Some(custom));
    assert forall|j: int| 0 <= j < entries2.len() && j != i implies entries2[j].name
        != entries2[i].name by {
        lemma_sorted_names_distinct(g.entries, i, j);
    }
    lemma_archived_map_lookup(entries2, i);
    assert(archived_ref(archived_map(entries2), b) == custom);
}

// ------------------------------------------------------------------
// Import merging
// ------------------------------------------------------------------

/// Whether a string list is strictly sorted (hence duplicate-free).
pub open spec fn strs_sorted(s: Seq<Seq<char>>) -> bool {
    forall|i: int, j: int| 0 <= i < j < s.len() ==> lex_lt(s[i], s[j])
}

/// Ordered insertion keeps a list sorted and its membership is the old
/// membership plus the inserted string.
proof fn lemma_insert_uniq_props(s: Seq<Seq<char>>, x: Seq<char>)
    requires
        strs_sorted(s),
    ensures
        strs_sorted(insert_uniq(s, x)),
        forall|y: Seq<char>| #[trigger] insert_uniq(s, x).contains(y) <==> (s.contains(y) || y
            == x),
    decreases s.len(),
{
    let r = insert_uniq(s, x);
    if s.len() == 0 {
        assert(r =~= seq![x]);
        assert(r[0] == x);
        assert forall|y: Seq<char>| #[trigger] r.contains(y) implies (s.contains(y) || y
            == x) by {
            let k = choose|k: int| 0 <= k < r.len() && r[k] == y;
        }
        assert(r.contains(x));
    } else if s[0] == x {
        assert forall|y: Seq<char>| s.contains(y) || y == x implies #[trigger] r.contains(
            y,
        ) by {
            if y == x {
                assert(r[0] == x);
            }
        }
    } else if lex_lt(x, s[0]) {
        assert(r =~= seq![x] + s);
        assert(r[0] == x);
        assert forall|i: int, j: int| 0 <= i < j < r.len() implies lex_lt(r[i], r[j]) by {
            if i == 0 {
                assert(r[j] == s[j - 1]);
                if j >= 2 {
                    crate::strutil::lemma_lex_lt_transitive(x, s[0], s[j - 1]);
                }
            } else {
                assert(r[i] == s[i - 1]);
                assert(r[j] == s[j - 1]);
            }
        }
        assert forall|y: Seq<char>| #[trigger] r.contains(y) implies (s.contains(y) || y
            == x) by {
            let k = choose|k: int| 0 <= k < r.len() && r[k] == y;
            if k > 0 {
                assert(r[k] == s[k - 1]);
                assert(s.contains(y));
            }
        }
        assert forall|y: Seq<char>| s.contains(y) || y == x implies #[trigger] r.contains(
            y,
        ) by {
            if y == x {
                assert(r[0] == x);
            } else {
                let k = choose|k: int| 0 <= k < s.len() && s[k] == y;
                assert(r[k + 1] == y);
            }
        }
    } else {
        let tail = s.skip(1);
        assert(strs_sorted(tail)) by {
            assert forall|i: int, j: int| 0 <= i < j < tail.len() implies lex_lt(
                tail[i],
                tail[j],
            ) by {
                assert(tail[i] == s[i + 1]);
                assert(tail[j] == s[j + 1]);
            }
        }
        lemma_insert_uniq_props(tail, x);
        let rt = insert_uniq(tail, x);
        assert(r =~= seq![s[0]] + rt);
        lemma_lex_lt_total(x, s[0]);
        assert(lex_lt(s[0], x));
        assert forall|i: int, j: int| 0 <= i < j < r.len() implies lex_lt(r[i], r[j]) by {
            if i == 0 {
                assert(r[j] == rt[j - 1]);
                assert(rt.contains(rt[j - 1]));
                if rt[j - 1] == x {
                    assert(lex_lt(s[0], x));
                } else {
                    assert(tail.contains(rt[j - 1]));
                    let k = choose|k: int| 0 <= k < tail.len() && tail[k] == rt[j - 1];
                    assert(tail[k] == s[k + 1]);
                    assert(lex_lt(s[0], s[k + 1]));
                }
            } else {
                assert(r[i] == rt[i - 1]);
                assert(r[j] == rt[j - 1]);
            }
        }
        assert forall|y: Seq<char>| #[trigger] r.contains(y) implies (s.contains(y) || y
            == x) by {
            let k = choose|k: int| 0 <= k < r.len() && r[k] == y;
            if k == 0 {
                assert(y == s[0]);
                assert(s.contains(y));
            } else {
                assert(r[k] == rt[k - 1]);
                assert(rt.contains(y));
                if y != x {
                    assert(tail.contains(y));
                    let k2 = choose|k2: int| 0 <= k2 < tail.len() && tail[k2] == y;
                    assert(s[k2 + 1] == y);
                    assert(s.contains(y));
                }
            }
        }
        assert forall|y: Seq<char>| s.contains(y) || y == x implies #[trigger] r.contains(
            y,
        ) by {
            if s.contains(y) {
                let k = choose|k: int| 0 <= k < s.len() && s[k] == y;
                if k == 0 {
                    assert(r[0] == y);
                } else {
                    assert(tail[k - 1] == y);
                    assert(tail.contains(y));
                    assert(rt.contains(y));
                    let k2 = choose|k2: int| 0 <= k2 < rt.len() && rt[k2] == y;
                    assert(r[k2 + 1] == y);
                }
            } else {
                assert(rt.contains(x));
                let k2 = choose|k2: int| 0 <= k2 < rt.len() && rt[k2] == x;
                assert(r[k2 + 1] == x);
            }
        }
    }
}

/// Sorting keeps exactly the members of the input, strictly ordered.
pub proof fn lemma_sort_uniq_props(s: Seq<Seq<char>>)
    ensures
        strs_sorted(sort_uniq(s)),
        forall|y: Seq<char>| #[trigger] sort_uniq(s).contains(y) <==> s.contains(y),
    decreases s.len(),
{
    if s.len() == 0 {
        assert forall|y: Seq<char>| #[trigger] sort_uniq(s).contains(y) implies s.contains(
            y,
        ) by {}
    } else {
        let pre = s.drop_last();
        lemma_sort_uniq_props(pre);
        lemma_insert_uniq_props(sort_uniq(pre), s.last());
        assert forall|y: Seq<char>| #[trigger] sort_uniq(s).contains(y) implies s.contains(
            y,
        ) by {
            if y != s.last() {
                assert(pre.contains(y));
                let k = choose|k: int| 0 <= k < pre.len() && pre[k] == y;
                assert(s[k] == y);
            } else {
                assert(s[s.len() - 1] == y);
            }
        }
        assert forall|y: Seq<char>| s.contains(y) implies #[trigger] sort_uniq(s).contains(
            y,
        ) by {
            let k = choose|k: int| 0 <= k < s.len() && s[k] == y;
            if k < s.len() - 1 {
                assert(pre[k] == y);
                assert(pre.contains(y));
            }
        }
    }
}

/// The module of every import is a member of the collected module list,
/// and the export of every import is a member of its module's export list.
proof fn lemma_import_membership(ims: Seq<ImportV>, k: int)
    requires
        0 <= k < ims.len(),
    ensures
        modules_of(ims).contains(ims[k].module),
        exports_for(ims, ims[k].module).contains(ims[k].export_name),
    decreases ims.len(),
{
    if k == ims.len() - 1 {
        assert(modules_of(ims).last() == ims[k].module);
        assert(exports_for(ims, ims[k].module).last() == ims[k].export_name);
    } else {
        lemma_import_membership(ims.drop_last(), k);
        assert(modules_of(ims).drop_last() == modules_of(ims.drop_last()));
        let pm = modules_of(ims.drop_last());
        let j = choose|j: int| 0 <= j < pm.len() && pm[j] == ims[k].module;
        assert(modules_of(ims)[j] == ims[k].module);
        let m = ims[k].module;
        let pe = exports_for(ims.drop_last(), m);
        let j2 = choose|j2: int| 0 <= j2 < pe.len() && pe[j2] == ims[k].export_name;
        if ims.last().module == m {
            assert(exports_for(ims, m)[j2] == ims[k].export_name);
        }
    }
}

/// Import merging: when two imports name the same module with different
/// exports, the merged block lists that module exactly once, and that
/// module's export list carries both exports, sorted and duplicate-free.
pub proof fn lemma_import_merging(ims: Seq<ImportV>, k1: int, k2: int)
    requires
        0 <= k1 < ims.len(),
        0 <= k2 < ims.len(),
        ims[k1].module == ims[k2].module,
    ensures
        ({
            let mods = sort_uniq(modules_of(ims));
            let exps = sort_uniq(exports_for(ims, ims[k1].module));
            &&& mods.contains(ims[k1].module)
            &&& forall|p: int, q: int|
                0 <= p < mods.len() && 0 <= q < mods.len() && mods[p] == ims[k1].module && mods[q]
                    == ims[k1].module ==> p == q
            &&& exps.contains(ims[k1].export_name)
            &&& exps.contains(ims[k2].export_name)
            &&& strs_sorted(exps)
        }),
{
    let m = ims[k1].module;
    lemma_import_membership(ims, k1);
    lemma_import_membership(ims, k2);
    lemma_sort_uniq_props(modules_of(ims));
    lemma_sort_uniq_props(exports_for(ims, m));
    let mods = sort_uniq(modules_of(ims));
    assert forall|p: int, q: int|
        0 <= p < mods.len() && 0 <= q < mods.len() && mods[p] == m && mods[q]
            == m implies p == q by {
        if p < q {
            lemma_lex_lt_irreflexive(m);
        }
        if q < p {
            lemma_lex_lt_irreflexive(m);
        }
    }
}


// ------------------------------------------------------------------
// Dependency ordering and cycle safety
// ------------------------------------------------------------------

/// `j` is emitted strictly before position `k` of `res`.
pub open spec fn emitted_before(res: Seq<int>, k: int, j: int) -> bool {
    exists|k2: int| 0 <= k2 < k && res[k2] == j
}

/// Every dependency of the entry emitted at position `k` was emitted
/// earlier or already stood emitted at the start.
pub open spec fn deps_emitted(
    s: Seq<TypeEntryV>,
    done: Seq<bool>,
    res: Seq<int>,
    k: int,
) -> bool {
    forall|kd: int, j: int|
        0 <= kd < entry_deps(s[res[k]]).len() && 0 <= j < s.len() && s[j].name
            == #[trigger] entry_deps(s[res[k]])[kd] && #[trigger] done[j] == false ==> emitted_before(
            res,
            k,
            j,
        )
}

/// What the first-ready scan yields.
proof fn lemma_first_ready_props(s: Seq<TypeEntryV>, done: Seq<bool>, i: int)
    requires
        0 <= i,
    ensures
        match first_ready(s, done, i) {
            Option::Some(r) => i <= r < s.len() && done[r] == false && entry_ready(
                s,
                done,
                s[r],
            ),
            Option::None => forall|k: int|
                i <= k < s.len() ==> #[trigger] done[k] == true || !entry_ready(s, done, s[k]),
        },
    decreases s.len() - i,
{
    if i < s.len() {
        if !(done[i] == false && entry_ready(s, done, s[i])) {
            lemma_first_ready_props(s, done, i + 1);
        }
    }
}

/// What the main emission phase yields: valid, initially-unemitted,
/// pairwise distinct indices; final flags that mark exactly the initial
/// flags plus the emitted indices; and every emitted entry's dependencies
/// emitted before it.
proof fn lemma_topo_main_props(s: Seq<TypeEntryV>, done: Seq<bool>, fuel: nat)
    requires
        done.len() == s.len(),
    ensures
        ({
            let r = topo_main(s, done, fuel);
            &&& r.1.len() == s.len()
            &&& forall|k: int|
                0 <= k < r.0.len() ==> 0 <= #[trigger] r.0[k] < s.len() && done[r.0[k]] == false
            &&& forall|k1: int, k2: int|
                0 <= k1 < k2 < r.0.len() ==> r.0[k1] != r.0[k2]
            &&& forall|j: int|
                0 <= j < s.len() ==> (#[trigger] r.1[j] == true <==> (done[j] == true
                    || r.0.contains(j)))
            &&& forall|k: int| 0 <= k < r.0.len() ==> deps_emitted(s, done, r.0, k)
        }),
    decreases fuel,
{
    let r = topo_main(s, done, fuel);
    if fuel == 0 {
        assert forall|j: int| 0 <= j < s.len() implies (#[trigger] r.1[j] == true <==> (
        done[j] == true || r.0.contains(j))) by {
            if r.0.contains(j) {
                let k = choose|k: int| 0 <= k < r.0.len() && r.0[k] == j;
            }
        }
    } else {
        lemma_first_ready_props(s, done, 0);
        match first_ready(s, done, 0) {
            Option::None => {
                assert forall|j: int| 0 <= j < s.len() implies (#[trigger] r.1[j] == true <==> (
                done[j] == true || r.0.contains(j))) by {
                    if r.0.contains(j) {
                        let k = choose|k: int| 0 <= k < r.0.len() && r.0[k] == j;
                    }
                }
            },
            Option::Some(i) => {
                let done2 = done.update(i, true);
                lemma_topo_main_props(s, done2, (fuel - 1) as nat);
                let rec = topo_main(s, done2, (fuel - 1) as nat);
                assert(r.0 == seq![i] + rec.0);
                assert(r.1 == rec.1);
                assert(r.0[0] == i);
                assert forall|k: int|
                    0 <= k < r.0.len() implies 0 <= #[trigger] r.0[k] < s.len() && done[r.0[k]]
                    == false by {
                    if k > 0 {
                        assert(r.0[k] == rec.0[k - 1]);
                        assert(done2[rec.0[k - 1]] == false);
                    }
                }
                assert forall|k1: int, k2: int| 0 <= k1 < k2 < r.0.len() implies r.0[k1]
                    != r.0[k2] by {
                    if k1 == 0 {
                        assert(r.0[k2] == rec.0[k2 - 1]);
                        assert(done2[rec.0[k2 - 1]] == false);
                        assert(done2[i] == true);
                    } else {
                        assert(r.0[k1] == rec.0[k1 - 1]);
                        assert(r.0[k2] == rec.0[k2 - 1]);
                    }
                }
                assert forall|j: int| 0 <= j < s.len() implies (#[trigger] r.1[j] == true <==> (
                done[j] == true || r.0.contains(j))) by {
                    assert(rec.1[j] == true <==> (done2[j] == true || rec.0.contains(j)));
                    if r.1[j] == true {
                        if done2[j] == true && done[j] == false {
                            assert(j == i);
                            assert(r.0[0] == j);
                            assert(r.0.contains(j));
                        }
                        if rec.0.contains(j) {
                            let k = choose|k: int| 0 <= k < rec.0.len() && rec.0[k] == j;
                            assert(r.0[k + 1] == j);
                            assert(r.0.contains(j));
                        }
                    }
                    if done[j] == true {
                        assert(done2[j] == true);
                    }
                    if r.0.contains(j) {
                        let k = choose|k: int| 0 <= k < r.0.len() && r.0[k] == j;
                        if k == 0 {
                            assert(j == i);
                            assert(done2[j] == true);
                        } else {
                            assert(rec.0[k - 1] == j);
                            assert(rec.0.contains(j));
                        }
                    }
                }
                assert forall|k: int| 0 <= k < r.0.len() implies deps_emitted(
                    s,
                    done,
                    r.0,
                    k,
                ) by {
                    if k == 0 {
                        assert(entry_ready(s, done, s[i]));
                        assert forall|kd: int, j: int|
                            0 <= kd < entry_deps(s[r.0[k]]).len() && 0 <= j < s.len() && s[j].name
                                == #[trigger] entry_deps(s[r.0[k]])[kd] && #[trigger] done[j]
                                == false implies emitted_before(r.0, k, j) by {
                            assert(crate::generator::dep_satisfied(
                                s,
                                done,
                                entry_deps(s[i])[kd],
                            ));
                            assert(done[j] == true);
                        }
                    } else {
                        assert(deps_emitted(s, done2, rec.0, k - 1));
                        assert forall|kd: int, j: int|
                            0 <= kd < entry_deps(s[r.0[k]]).len() && 0 <= j < s.len() && s[j].name
                                == #[trigger] entry_deps(s[r.0[k]])[kd] && #[trigger] done[j]
                                == false implies emitted_before(r.0, k, j) by {
                            assert(r.0[k] == rec.0[k - 1]);
                            assert(entry_deps(s[rec.0[k - 1]])[kd] == entry_deps(s[r.0[k]])[kd]);
                            if done2[j] == false {
                                assert(emitted_before(rec.0, k - 1, j));
                                let k2 = choose|k2: int|
                                    0 <= k2 < k - 1 && rec.0[k2] == j;
                                assert(r.0[k2 + 1] == j);
                                assert(emitted_before(r.0, k, j));
                            } else {
                                assert(j == i);
                                assert(r.0[0] == j);
                                assert(emitted_before(r.0, k, j));
                            }
                        }
                    }
                }
            },
        }
    }
}

/// How many entries are still unemitted.
pub open spec fn num_false(done: Seq<bool>) -> nat
    decreases done.len(),
{
    if done.len() == 0 {
        0
    } else {
        num_false(done.drop_last()) + (if done.last() {
            0nat
        } else {
            1nat
        })
    }
}

proof fn lemma_num_false_update(done: Seq<bool>, i: int)
    requires
        0 <= i < done.len(),
        done[i] == false,
    ensures
        num_false(done) >= 1,
        num_false(done.update(i, true)) == num_false(done) - 1,
    decreases done.len(),
{
    let d2 = done.update(i, true);
    if i == done.len() - 1 {
        assert(d2.drop_last() =~= done.drop_last());
        assert(d2.last());
    } else {
        lemma_num_false_update(done.drop_last(), i);
        assert(d2.drop_last() =~= done.drop_last().update(i, true));
        assert(d2.last() == done.last());
    }
}

proof fn lemma_num_false_zero(done: Seq<bool>)
    requires
        num_false(done) == 0,
    ensures
        forall|j: int| 0 <= j < done.len() ==> #[trigger] done[j] == true,
    decreases done.len(),
{
    if done.len() > 0 {
        lemma_num_false_zero(done.drop_last());
        assert forall|j: int| 0 <= j < done.len() implies #[trigger] done[j] == true by {
            if j < done.len() - 1 {
                assert(done.drop_last()[j] == done[j]);
            }
        }
    }
}

proof fn lemma_num_false_all_false(done: Seq<bool>)
    requires
        forall|j: int| 0 <= j < done.len() ==> #[trigger] done[j] == false,
    ensures
        num_false(done) == done.len(),
    decreases done.len(),
{
    if done.len() > 0 {
        assert forall|j: int|
            0 <= j < done.drop_last().len() implies #[trigger] done.drop_last()[j]
            == false by {
            assert(done.drop_last()[j] == done[j]);
        }
        lemma_num_false_all_false(done.drop_last());
    }
}

/// Whether a ranking certifies the reference graph free of cycles: every
/// dependency on a present entry strictly lowers the rank.
pub open spec fn rank_ok(s: Seq<TypeEntryV>, rank: Map<Seq<char>, nat>) -> bool {
    forall|i: int, kd: int, j: int|
        0 <= i < s.len() && 0 <= kd < entry_deps(s[i]).len() && 0 <= j < s.len() && (#[trigger] s[j].name)
            == #[trigger] entry_deps(s[i])[kd] ==> rank[s[j].name] < rank[s[i].name]
}

/// Whether the entries' reference graph is free of cycles.
pub open spec fn acyclic(s: Seq<TypeEntryV>) -> bool {
    exists|rank: Map<Seq<char>, nat>| rank_ok(s, rank)
}

/// Among the unemitted entries there is one of minimal rank.
#[verifier::rlimit(50)]
proof fn lemma_min_unemitted(s: Seq<TypeEntryV>, done: Seq<bool>, rank: Map<Seq<char>, nat>, k:
    int)
    requires
        done.len() == s.len(),
        0 < k <= s.len(),
        exists|j: int| 0 <= j < k && #[trigger] done[j] == false,
    ensures
        exists|i: int|
            0 <= i < k && #[trigger] done[i] == false && (forall|j: int|
                0 <= j < k && #[trigger] done[j] == false ==> rank[s[i].name] <= rank[s[j].name]),
    decreases k,
{
    if done[k - 1] == false {
        if exists|j: int| 0 <= j < k - 1 && #[trigger] done[j] == false {
            lemma_min_unemitted(s, done, rank, k - 1);
            let i0 = choose|i0: int|
                0 <= i0 < k - 1 && #[trigger] done[i0] == false && (forall|j: int|
                    0 <= j < k - 1 && #[trigger] done[j] == false ==> rank[s[i0].name]
                        <= rank[s[j].name]);
            if rank[s[i0].name] <= rank[s[k - 1].name] {
                assert(0 <= i0 < k && done[i0] == false && (forall|j: int|
                    0 <= j < k && #[trigger] done[j] == false ==> rank[s[i0].name]
                        <= rank[s[j].name]));
            } else {
                assert(0 <= k - 1 < k && done[k - 1] == false && (forall|j: int|
                    0 <= j < k && #[trigger] done[j] == false ==> rank[s[k - 1].name]
                        <= rank[s[j].name]));
            }
        } else {
            assert(0 <= k - 1 < k && done[k - 1] == false && (forall|j: int|
                0 <= j < k && #[trigger] done[j] == false ==> rank[s[k - 1].name]
                    <= rank[s[j].name]));
        }
    } else {
        lemma_min_unemitted(s, done, rank, k - 1);
        let i0 = choose|i0: int|
            0 <= i0 < k - 1 && #[trigger] done[i0] == false && (forall|j: int|
                0 <= j < k - 1 && #[trigger] done[j] == false ==> rank[s[i0].name]
                    <= rank[s[j].name]);
        assert(0 <= i0 < k && done[i0] == false && (forall|j: int|
            0 <= j < k && #[trigger] done[j] == false ==> rank[s[i0].name] <= rank[s[j].name]));
    }
}

/// Under an acyclicity ranking, some unemitted entry is always ready.
proof fn lemma_ready_exists(s: Seq<TypeEntryV>, done: Seq<bool>, rank: Map<Seq<char>, nat>)
    requires
        rank_ok(s, rank),
        done.len() == s.len(),
        exists|j: int| 0 <= j < s.len() && #[trigger] done[j] == false,
    ensures
        exists|i: int|
            0 <= i < s.len() && #[trigger] done[i] == false && entry_ready(s, done, s[i]),
{
    lemma_min_unemitted(s, done, rank, s.len() as int);
    let i = choose|i: int|
        0 <= i < s.len() && #[trigger] done[i] == false && (forall|j: int|
            0 <= j < s.len() && #[trigger] done[j] == false ==> rank[s[i].name]
                <= rank[s[j].name]);
    assert(entry_ready(s, done, s[i])) by {
        assert forall|kd: int|
            0 <= kd < entry_deps(s[i]).len() implies crate::generator::dep_satisfied(
            s,
            done,
            #[trigger] entry_deps(s[i])[kd],
        ) by {
            assert forall|j: int|
                0 <= j < s.len() && s[j].name == entry_deps(s[i])[kd] implies #[trigger] done[j]
                == true by {
                if done[j] == false {
                    assert(rank[s[j].name] < rank[s[i].name]);
                    assert(rank[s[i].name] <= rank[s[j].name]);
                }
            }
        }
    }
}

/// With enough fuel and an acyclicity ranking, the main phase emits every
/// entry.
proof fn lemma_main_completes(
    s: Seq<TypeEntryV>,
    done: Seq<bool>,
    fuel: nat,
    rank: Map<Seq<char>, nat>,
)
    requires
        rank_ok(s, rank),
        done.len() == s.len(),
        num_false(done) <= fuel,
    ensures
        forall|j: int|
            0 <= j < s.len() ==> #[trigger] topo_main(s, done, fuel).1[j] == true,
    decreases fuel,
{
    if num_false(done) == 0 {
        lemma_num_false_zero(done);
        if fuel > 0 {
            lemma_first_ready_props(s, done, 0);
            match first_ready(s, done, 0) {
                Option::Some(i) => {
                    assert(done[i] == false);
                    assert(false);
                },
                Option::None => {},
            }
        }
        assert(topo_main(s, done, fuel).1 == done);
        assert forall|j: int|
            0 <= j < s.len() implies #[trigger] topo_main(s, done, fuel).1[j] == true by {
            assert(done[j] == true);
        }
    } else {
        let jw = lemma_exists_false(done);
        lemma_ready_exists(s, done, rank);
        lemma_first_ready_props(s, done, 0);
        match first_ready(s, done, 0) {
            Option::None => {
                let i0 = choose|i: int|
                    0 <= i < s.len() && #[trigger] done[i] == false && entry_ready(
                        s,
                        done,
                        s[i],
                    );
                assert(done[i0] == true || !entry_ready(s, done, s[i0]));
                assert(false);
            },
            Option::Some(i) => {
                lemma_num_false_update(done, i);
                lemma_main_completes(s, done.update(i, true), (fuel - 1) as nat, rank);
                assert(topo_main(s, done, fuel).1 == topo_main(
                    s,
                    done.update(i, true),
                    (fuel - 1) as nat,
                ).1);
                assert forall|j: int|
                    0 <= j < s.len() implies #[trigger] topo_main(s, done, fuel).1[j]
                    == true by {
                    assert(topo_main(s, done.update(i, true), (fuel - 1) as nat).1[j] == true);
                }
            },
        }
    }
}

/// A positive unemitted count yields an unemitted witness.
proof fn lemma_exists_false(done: Seq<bool>) -> (j: int)
    requires
        num_false(done) >= 1,
    ensures
        0 <= j < done.len() && done[j] == false,
    decreases done.len(),
{
    if done.last() == false {
        done.len() - 1
    } else {
        let j = lemma_exists_false(done.drop_last());
        assert(done.drop_last()[j] == done[j]);
        j
    }
}

/// What the leftover scan yields: exactly the unemitted indices from `i`
/// on, in increasing order.
proof fn lemma_unfinished_props(s: Seq<TypeEntryV>, done: Seq<bool>, i: int)
    requires
        0 <= i,
    ensures
        ({
            let u = unfinished(s, done, i);
            &&& forall|k: int|
                0 <= k < u.len() ==> i <= #[trigger] u[k] < s.len() && done[u[k]] == false
            &&& forall|j: int|
                i <= j < s.len() && #[trigger] done[j] == false ==> u.contains(j)
            &&& forall|k1: int, k2: int| 0 <= k1 < k2 < u.len() ==> u[k1] < u[k2]
        }),
    decreases s.len() - i,
{
    let u = unfinished(s, done, i);
    if i < s.len() {
        lemma_unfinished_props(s, done, i + 1);
        let ur = unfinished(s, done, i + 1);
        if done[i] == false {
            assert(u == seq![i] + ur);
            assert(u[0] == i);
            assert forall|j: int|
                i <= j < s.len() && #[trigger] done[j] == false implies u.contains(j) by {
                if j == i {
                    assert(u[0] == j);
                } else {
                    assert(ur.contains(j));
                    let k = choose|k: int| 0 <= k < ur.len() && ur[k] == j;
                    assert(u[k + 1] == j);
                }
            }
            assert forall|k1: int, k2: int| 0 <= k1 < k2 < u.len() implies u[k1] < u[k2] by {
                if k1 == 0 {
                    assert(u[k2] == ur[k2 - 1]);
                } else {
                    assert(u[k1] == ur[k1 - 1]);
                    assert(u[k2] == ur[k2 - 1]);
                }
            }
        } else {
            assert forall|j: int|
                i <= j < s.len() && #[trigger] done[j] == false implies u.contains(j) by {
                assert(ur.contains(j));
            }
        }
    }
}

/// Cycle safety: whatever the reference graph — cycles included — the
/// emission order lists a valid entry index at every position, covers
/// every entry, and repeats none; so mutually referencing entries complete
/// generation, each appearing exactly once.
pub proof fn lemma_cycle_safety(s: Seq<TypeEntryV>)
    ensures
        ({
            let order = emission_order(s);
            &&& forall|k: int| 0 <= k < order.len() ==> 0 <= #[trigger] order[k] < s.len()
            &&& forall|idx: int| 0 <= idx < s.len() ==> order.contains(idx)
            &&& forall|k1: int, k2: int| 0 <= k1 < k2 < order.len() ==> order[k1] != order[k2]
        }),
{
    let init = Seq::new(s.len(), |i: int| false);
    lemma_topo_main_props(s, init, s.len());
    let main = topo_main(s, init, s.len());
    lemma_unfinished_props(s, main.1, 0);
    let u = unfinished(s, main.1, 0);
    let order = emission_order(s);
    assert(order == main.0 + u);
    assert forall|k: int| 0 <= k < order.len() implies 0 <= #[trigger] order[k]
        < s.len() by {
        if k < main.0.len() {
            assert(order[k] == main.0[k]);
        } else {
            assert(order[k] == u[k - main.0.len()]);
        }
    }
    assert forall|idx: int| 0 <= idx < s.len() implies order.contains(idx) by {
        if main.1[idx] == true {
            assert(main.0.contains(idx));
            let k = choose|k: int| 0 <= k < main.0.len() && main.0[k] == idx;
            assert(order[k] == idx);
        } else {
            assert(u.contains(idx));
            let k = choose|k: int| 0 <= k < u.len() && u[k] == idx;
            assert(order[main.0.len() + k] == idx);
        }
    }
    assert forall|k1: int, k2: int| 0 <= k1 < k2 < order.len() implies order[k1]
        != order[k2] by {
        if k2 < main.0.len() {
        } else if k1 >= main.0.len() {
            assert(order[k1] == u[k1 - main.0.len()]);
            assert(order[k2] == u[k2 - main.0.len()]);
        } else {
            assert(order[k1] == main.0[k1]);
            assert(order[k2] == u[k2 - main.0.len()]);
            assert(main.1[u[k2 - main.0.len()]] == false);
            assert(main.1[main.0[k1]] == true) by {
                assert(main.0.contains(main.0[k1]));
            }
        }
    }
}

/// Dependency ordering: when the reference graph is free of cycles and
/// entry `a`'s field graph names entry `b`, `b` is emitted strictly before
/// `a`.
pub proof fn lemma_dependency_order(s: Seq<TypeEntryV>, a: int, b: int, pa: int)
    requires
        acyclic(s),
        0 <= a < s.len(),
        0 <= b < s.len(),
        entry_deps(s[a]).contains(s[b].name),
        0 <= pa < emission_order(s).len(),
        emission_order(s)[pa] == a,
    ensures
        exists|pb: int| 0 <= pb < pa && #[trigger] emission_order(s)[pb] == b,
{
    let rank = choose|rank: Map<Seq<char>, nat>| rank_ok(s, rank);
    let init = Seq::new(s.len(), |i: int| false);
    lemma_num_false_all_false(init);
    lemma_topo_main_props(s, init, s.len());
    lemma_main_completes(s, init, s.len(), rank);
    let main = topo_main(s, init, s.len());
    lemma_unfinished_props(s, main.1, 0);
    let u = unfinished(s, main.1, 0);
    assert(u.len() == 0) by {
        if u.len() > 0 {
            assert(main.1[u[0]] == false);
        }
    }
    let order = emission_order(s);
    assert(order =~= main.0);
    assert(deps_emitted(s, init, main.0, pa));
    let kd = choose|kd: int|
        0 <= kd < entry_deps(s[a]).len() && entry_deps(s[a])[kd] == s[b].name;
    assert(init[b] == false);
    assert(emitted_before(main.0, pa, b));
    let pb = choose|pb: int| 0 <= pb < pa && main.0[pb] == b;
    assert(emission_order(s)[pb] == b);
}

} // verus!
