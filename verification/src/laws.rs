//! The guarantees of the resolution engine, stated and proved over the
//! specification: the merge treats a project's tag references as a set, it
//! combines contributions in ascending (priority, name) order, a reference
//! to an undefined tag is dropped without effect, and a project with neither
//! tags nor overrides resolves to the defaults.

use vstd::prelude::*;
use vstd::relations::sorted_by;
use vstd::seq_lib::lemma_multiset_commutative;
use vstd::seq_lib::group_to_multiset_ensures;
use vstd::multiset::group_multiset_axioms;
use crate::model::{ConfigView, ProjectView, TagDefView};
use crate::resolve::{
    contribs, contrib_leq, contrib_one, contrib_order, lookup_tag, merge_result, sort_contribs,
    lemma_sort_contribs_ensures, lemma_sort_contribs_of_multiset, spec_resolve_after_clone,
    spec_resolve_after_workon, spec_resolve_workspace, Contrib, EffectField, Joiner,
};

verus! {

/// Contributions distribute over concatenation of the reference list.
proof fn lemma_contribs_concat(
    tags: Seq<TagDefView>,
    a: Seq<Seq<char>>,
    b: Seq<Seq<char>>,
    f: EffectField,
)
    ensures
        contribs(tags, a + b, f) == contribs(tags, a, f) + contribs(tags, b, f),
    decreases b.len(),
{
    if b.len() == 0 {
        assert(a + b =~= a);
        assert(contribs(tags, a, f) + contribs(tags, b, f) =~= contribs(tags, a, f));
    } else {
        assert((a + b).drop_last() =~= a + b.drop_last());
        assert((a + b).last() == b.last());
        lemma_contribs_concat(tags, a, b.drop_last(), f);
        assert(contribs(tags, a, f) + (contribs(tags, b.drop_last(), f) + contrib_one(
            tags,
            b.last(),
            f,
        )) =~= (contribs(tags, a, f) + contribs(tags, b.drop_last(), f)) + contrib_one(
            tags,
            b.last(),
            f,
        ));
    }
}

/// A single reference contributes `contrib_one` of it.
proof fn lemma_contribs_single(tags: Seq<TagDefView>, name: Seq<char>, f: EffectField)
    ensures
        contribs(tags, seq![name], f) == contrib_one(tags, name, f),
{
    assert(seq![name].drop_last() =~= Seq::<Seq<char>>::empty());
    assert(contribs(tags, seq![name].drop_last(), f) + contrib_one(tags, name, f) =~= contrib_one(
        tags,
        name,
        f,
    ));
}

/// The multiset of contributions depends only on the multiset of referenced
/// names, never on their order.
proof fn lemma_contribs_multiset(
    tags: Seq<TagDefView>,
    n1: Seq<Seq<char>>,
    n2: Seq<Seq<char>>,
    f: EffectField,
)
    requires
        n1.to_multiset() == n2.to_multiset(),
    ensures
        contribs(tags, n1, f).to_multiset() == contribs(tags, n2, f).to_multiset(),
    decreases n1.len(),
{
    broadcast use group_to_multiset_ensures;
    broadcast use group_multiset_axioms;

    if n1.len() == 0 {
        assert(n1.to_multiset().len() == 0);
        assert(n2.len() == 0);
        assert(n2 =~= n1);
    } else {
        let x = n1.last();
        let m = n1.drop_last();
        assert(n1 =~= m.push(x));
        assert(n1.to_multiset() == m.to_multiset().insert(x));
        assert(n2.to_multiset().contains(x));
        assert(n2.contains(x));
        let j = choose|j: int| 0 <= j < n2.len() && n2[j] == x;
        let a = n2.subrange(0, j);
        let b = n2.subrange(j + 1, n2.len() as int);
        assert(n2 =~= (a + seq![x]) + b);
        assert(n2.remove(j) =~= a + b);
        vstd::seq_lib::to_multiset_remove(n2, j);
        assert(m.to_multiset().insert(x).remove(x) =~= m.to_multiset());
        assert(m.to_multiset() == (a + b).to_multiset());
        lemma_contribs_multiset(tags, m, a + b, f);
        lemma_contribs_concat(tags, a + seq![x], b, f);
        lemma_contribs_concat(tags, a, seq![x], f);
        lemma_contribs_concat(tags, a, b, f);
        lemma_contribs_single(tags, x, f);
        let ca = contribs(tags, a, f);
        let cb = contribs(tags, b, f);
        let cx = contrib_one(tags, x, f);
        let cm = contribs(tags, m, f);
        assert(contribs(tags, n1, f) == cm + cx);
        assert(contribs(tags, n2, f) == (ca + cx) + cb);
        lemma_multiset_commutative(cm, cx);
        lemma_multiset_commutative(ca + cx, cb);
        lemma_multiset_commutative(ca, cx);
        lemma_multiset_commutative(ca, cb);
        assert(cm.to_multiset() == (ca + cb).to_multiset());
        assert(contribs(tags, n1, f).to_multiset() =~= contribs(tags, n2, f).to_multiset()) by {
            assert forall|e: Contrib|
                (cm + cx).to_multiset().count(e) == ((ca + cx) + cb).to_multiset().count(e) by {
                assert(cm.to_multiset().count(e) == ca.to_multiset().count(e)
                    + cb.to_multiset().count(e));
            }
        }
    }
}

/// The tag merge treats the referenced names as a set: any two reference
/// lists with the same elements, in whatever order, merge to the same
/// result, for every field and every combination strategy.
pub proof fn lemma_merge_order_independent(
    tags: Option<Seq<TagDefView>>,
    n1: Seq<Seq<char>>,
    n2: Seq<Seq<char>>,
    f: EffectField,
    j: Joiner,
)
    requires
        n1.to_multiset() == n2.to_multiset(),
    ensures
        merge_result(tags, Some(n1), f, j) == merge_result(tags, Some(n2), f, j),
{
    match tags {
        None => {},
        Some(ts) => {
            lemma_contribs_multiset(ts, n1, n2, f);
            lemma_sort_contribs_of_multiset(contribs(ts, n1, f), contribs(ts, n2, f));
        },
    }
}

/// Two projects that agree on everything but the order of their tag
/// references resolve identically: same post-clone command, same
/// post-activation command, same workspace.
pub proof fn lemma_resolution_order_independent(c: ConfigView, p1: ProjectView, p2: ProjectView)
    requires
        p1.after_clone == p2.after_clone,
        p1.after_workon == p2.after_workon,
        match (p1.tags, p2.tags) {
            (Some(t1), Some(t2)) => t1.to_multiset() == t2.to_multiset(),
            (t1, t2) => t1 == t2,
        },
    ensures
        spec_resolve_after_clone(c, p1) == spec_resolve_after_clone(c, p2),
        spec_resolve_after_workon(c, p1) == spec_resolve_after_workon(c, p2),
        spec_resolve_workspace(c, p1) == spec_resolve_workspace(c, p2),
{
    match (p1.tags, p2.tags) {
        (Some(t1), Some(t2)) => {
            lemma_merge_order_independent(
                c.settings.tags,
                t1,
                t2,
                EffectField::AfterClone,
                Joiner::OrderedJoin,
            );
            lemma_merge_order_independent(
                c.settings.tags,
                t1,
                t2,
                EffectField::AfterWorkon,
                Joiner::OrderedJoin,
            );
            lemma_merge_order_independent(
                c.settings.tags,
                t1,
                t2,
                EffectField::Workspace,
                Joiner::LastWins,
            );
        },
        _ => {},
    }
}

/// What the merge combines is the canonical arrangement of the referenced
/// tags' contributions: sorted ascending under the contribution order
/// (priority first, tag name on ties) and holding exactly the contributed
/// values.
pub proof fn lemma_merge_contributions_sorted(
    tags: Seq<TagDefView>,
    names: Seq<Seq<char>>,
    f: EffectField,
)
    ensures
        sorted_by(sort_contribs(contribs(tags, names, f)), contrib_order()),
        sort_contribs(contribs(tags, names, f)).to_multiset() == contribs(
            tags,
            names,
            f,
        ).to_multiset(),
{
    lemma_sort_contribs_ensures(contribs(tags, names, f));
}

/// Distinct references contribute under distinct names, each of them one of
/// the referenced names.
proof fn lemma_contribs_distinct_names(
    tags: Seq<TagDefView>,
    names: Seq<Seq<char>>,
    f: EffectField,
)
    requires
        names.no_duplicates(),
    ensures
        ({
            let c = contribs(tags, names, f);
            &&& forall|k: int| 0 <= k < c.len() ==> names.contains((#[trigger] c[k]).name)
            &&& forall|k1: int, k2: int|
                0 <= k1 < k2 < c.len() ==> (#[trigger] c[k1]).name != (#[trigger] c[k2]).name
        }),
    decreases names.len(),
{
    if names.len() > 0 {
        let m = names.drop_last();
        let x = names.last();
        assert(m.no_duplicates());
        lemma_contribs_distinct_names(tags, m, f);
        let cp = contribs(tags, m, f);
        let cx = contrib_one(tags, x, f);
        let c = contribs(tags, names, f);
        assert(c == cp + cx);
        assert forall|k: int| 0 <= k < c.len() implies names.contains((#[trigger] c[k]).name) by {
            if k < cp.len() {
                assert(c[k] == cp[k]);
                let i = choose|i: int| 0 <= i < m.len() && m[i] == cp[k].name;
                assert(names[i] == cp[k].name);
            } else {
                assert(c[k].name == x);
                assert(names[names.len() - 1] == x);
            }
        }
        assert forall|k1: int, k2: int| 0 <= k1 < k2 < c.len() implies (#[trigger] c[k1]).name != (
        #[trigger] c[k2]).name by {
            if k2 >= cp.len() {
                assert(c[k2].name == x);
                assert(c[k1] == cp[k1]);
                let i = choose|i: int| 0 <= i < m.len() && m[i] == cp[k1].name;
                assert(names[i] == cp[k1].name);
                assert(names[i] != names[names.len() - 1]);
            }
        }
    }
}

/// Strictly ascending contributions: by priority first, and by tag name
/// between equal priorities.
pub open spec fn strictly_ordered(sorted: Seq<Contrib>) -> bool {
    forall|k1: int, k2: int|
        0 <= k1 < k2 < sorted.len() ==> {
            let a = #[trigger] sorted[k1];
            let b = #[trigger] sorted[k2];
            a.priority < b.priority || (a.priority == b.priority && crate::model::lex_lt(
                a.name,
                b.name,
            ))
        }
}

/// For a set of references, given as pairwise distinct names, the merge's
/// arrangement is strictly ascending: by priority first, and by tag name
/// between equal priorities.
pub proof fn lemma_merge_strict_order(tags: Seq<TagDefView>, names: Seq<Seq<char>>, f: EffectField)
    requires
        names.no_duplicates(),
    ensures
        strictly_ordered(sort_contribs(contribs(tags, names, f))),
{
    broadcast use group_to_multiset_ensures;
    broadcast use group_multiset_axioms;

    let c = contribs(tags, names, f);
    let sorted = sort_contribs(c);
    lemma_contribs_distinct_names(tags, names, f);
    lemma_sort_contribs_ensures(c);
    assert(c.no_duplicates());
    c.lemma_multiset_has_no_duplicates();
    sorted.lemma_multiset_has_no_duplicates_conv();
    assert forall|k1: int, k2: int| 0 <= k1 < k2 < sorted.len() implies {
        let a = #[trigger] sorted[k1];
        let b = #[trigger] sorted[k2];
        a.priority < b.priority || (a.priority == b.priority && crate::model::lex_lt(
            a.name,
            b.name,
        ))
    } by {
        let e1 = sorted[k1];
        let e2 = sorted[k2];
        assert(contrib_leq(e1, e2)) by {
            let leq = contrib_order();
            assert(vstd::relations::sorted_by(sorted, leq));
            assert(leq(sorted[k1], sorted[k2]));
        }
        assert(e1 != e2);
        assert(e1.name != e2.name) by {
            if e1.name == e2.name {
                assert(sorted.to_multiset().contains(e1));
                assert(sorted.to_multiset().contains(e2));
                assert(c.contains(e1));
                assert(c.contains(e2));
                let i1 = choose|i: int| 0 <= i < c.len() && c[i] == e1;
                let i2 = choose|i: int| 0 <= i < c.len() && c[i] == e2;
                assert(i1 != i2);
                if i1 < i2 {
                    assert(c[i1].name != c[i2].name);
                } else {
                    assert(c[i2].name != c[i1].name);
                }
            }
        }
    }
}

/// A referenced name with no tag definition in the settings is ignored
/// without failing resolution: dropping it from the references leaves every
/// merge unchanged.
pub proof fn lemma_unknown_tag_ignored(
    tags: Seq<TagDefView>,
    names: Seq<Seq<char>>,
    i: int,
    f: EffectField,
    j: Joiner,
)
    requires
        0 <= i < names.len(),
        lookup_tag(tags, names[i]) is None,
    ensures
        merge_result(Some(tags), Some(names), f, j) == merge_result(
            Some(tags),
            Some(names.remove(i)),
            f,
            j,
        ),
{
    let a = names.subrange(0, i);
    let b = names.subrange(i + 1, names.len() as int);
    let x = names[i];
    assert(names =~= (a + seq![x]) + b);
    assert(names.remove(i) =~= a + b);
    lemma_contribs_concat(tags, a + seq![x], b, f);
    lemma_contribs_concat(tags, a, seq![x], f);
    lemma_contribs_concat(tags, a, b, f);
    lemma_contribs_single(tags, x, f);
    assert(contrib_one(tags, x, f) =~= Seq::<Contrib>::empty());
    assert((contribs(tags, a, f) + contrib_one(tags, x, f)) + contribs(tags, b, f) =~= contribs(
        tags,
        a,
        f,
    ) + contribs(tags, b, f));
}

/// A project with no tag references and no overrides resolves to no
/// post-clone command and to the empty post-activation command.
pub proof fn lemma_no_tags_no_overrides(c: ConfigView, p: ProjectView)
    requires
        p.tags is None,
        p.after_clone is None,
        p.after_workon is None,
    ensures
        spec_resolve_after_clone(c, p) is None,
        spec_resolve_after_workon(c, p) == Seq::<char>::empty(),
{
}

} // verus!
