//! The resolution engine: merging a project's tag-derived values under a
//! deterministic, order-independent algorithm.
//!
//! A project references tags by name. Each referenced tag that is defined in
//! the settings and carries the requested field contributes a value paired
//! with the tag's priority. The contributions are sorted by ascending
//! priority, ties broken by ascending tag name, and then combined: command
//! strings are joined with `" && "` in that order, while for the workspace
//! the last (highest-priority) value wins.

use vstd::prelude::*;
use vstd::relations::{sorted_by, total_ordering};
use vstd::relations::lemma_new_first_element_still_sorted_by;
use vstd::seq_lib::lemma_sorted_unique;
use vstd::seq_lib::lemma_multiset_commutative;
use vstd::seq_lib::group_to_multiset_ensures;
use vstd::multiset::group_multiset_axioms;
use vstd::multiset::Multiset;
use vstd::string::StrSliceExecFns;
use vstd::string::StringExecFns;
use crate::text::{lex_leq, lemma_lex_refl, lemma_lex_total, lemma_lex_antisym, lemma_lex_trans};
use crate::text::{str_eq, str_leq};
use crate::model::{Tag, TagView, TagDef, TagDefView, Project, ProjectView, Config, ConfigView};
use crate::model::{view_opt, view_strings, view_opt_strings, view_tag_defs};

verus! {

/// The priority a tag merges under when it sets none itself.
pub const DEFAULT_PRIORITY: u8 = 50;

/// Which optional field of a tag the merge extracts.
#[derive(Clone, Copy, Debug)]
pub enum EffectField {
    AfterClone,
    AfterWorkon,
    Workspace,
}

/// How the merge combines the sorted contributions.
#[derive(Clone, Copy, Debug)]
pub enum Joiner {
    /// Join all values with `" && "`, lowest priority first.
    OrderedJoin,
    /// Take the last value: the highest-priority tag wins.
    LastWins,
}

/// The requested field of a tag.
pub open spec fn field_of(t: TagView, f: EffectField) -> Option<Seq<char>> {
    match f {
        EffectField::AfterClone => t.after_clone,
        EffectField::AfterWorkon => t.after_workon,
        EffectField::Workspace => t.workspace,
    }
}

/// The priority a tag merges under.
pub open spec fn priority_of(t: TagView) -> u8 {
    match t.priority {
        Some(p) => p,
        None => DEFAULT_PRIORITY,
    }
}

/// One contribution to a merge: a value extracted from a tag, paired with
/// the tag's priority and name, which together decide its place in the
/// combined result.
#[verifier::ext_equal]
pub ghost struct Contrib {
    pub priority: u8,
    pub name: Seq<char>,
    pub value: Seq<char>,
}

/// An executable contribution.
pub struct ContribEntry {
    pub priority: u8,
    pub name: String,
    pub value: String,
}

impl View for ContribEntry {
    type V = Contrib;

    open spec fn view(&self) -> Contrib {
        Contrib { priority: self.priority, name: self.name@, value: self.value@ }
    }
}

/// View of a list of executable contributions.
pub open spec fn contribs_view(s: Seq<ContribEntry>) -> Seq<Contrib> {
    s.map_values(|e: ContribEntry| e@)
}

/// Contributions are ordered by priority, then tag name, then value, each
/// ascending. The value only breaks ties between equal names, so that the
/// order is total; within one merge names are distinct and it never decides.
pub open spec fn contrib_leq(a: Contrib, b: Contrib) -> bool {
    if a.priority != b.priority {
        a.priority < b.priority
    } else if a.name != b.name {
        lex_leq(a.name, b.name)
    } else {
        lex_leq(a.value, b.value)
    }
}

/// The contribution order as a relation value.
pub open spec fn contrib_order() -> spec_fn(Contrib, Contrib) -> bool {
    |a: Contrib, b: Contrib| contrib_leq(a, b)
}

/// The contribution order is a total order.
pub proof fn lemma_contrib_total_ordering()
    ensures
        total_ordering(contrib_order()),
{
    let leq = contrib_order();
    assert forall|a: Contrib| #[trigger] leq(a, a) by {
        lemma_lex_refl(a.value);
    }
    assert forall|a: Contrib, b: Contrib| #[trigger] leq(a, b) && #[trigger] leq(b, a) implies a
        == b by {
        if a.name != b.name {
            lemma_lex_antisym(a.name, b.name);
        } else {
            lemma_lex_antisym(a.value, b.value);
            assert(a =~= b);
        }
    }
    assert forall|a: Contrib, b: Contrib, c: Contrib|
        #[trigger] leq(a, b) && #[trigger] leq(b, c) implies leq(a, c) by {
        if a.priority == b.priority && b.priority == c.priority {
            lemma_lex_refl(a.name);
            lemma_lex_refl(b.name);
            lemma_lex_trans(a.name, b.name, c.name);
            if a.name == c.name {
                if a.name != b.name {
                    lemma_lex_antisym(a.name, b.name);
                }
                lemma_lex_trans(a.value, b.value, c.value);
            }
        }
    }
    assert forall|a: Contrib, b: Contrib| #[trigger] leq(a, b) || #[trigger] leq(b, a) by {
        if a.priority == b.priority {
            if a.name != b.name {
                lemma_lex_total(a.name, b.name);
            } else {
                lemma_lex_total(a.value, b.value);
            }
        }
    }
}

/// Insertion of a contribution into a sorted sequence, before the first
/// element it is less than or equal to.
pub open spec fn insert_sorted(s: Seq<Contrib>, x: Contrib) -> Seq<Contrib>
    decreases s.len(),
{
    if s.len() == 0 {
        seq![x]
    } else if contrib_leq(x, s[0]) {
        seq![x] + s
    } else {
        seq![s[0]] + insert_sorted(s.drop_first(), x)
    }
}

/// Insertion sort of the contributions: the canonical sorted arrangement.
pub open spec fn sort_contribs(s: Seq<Contrib>) -> Seq<Contrib>
    decreases s.len(),
{
    if s.len() == 0 {
        Seq::empty()
    } else {
        insert_sorted(sort_contribs(s.drop_last()), s.last())
    }
}

pub proof fn lemma_insert_sorted_ensures(s: Seq<Contrib>, x: Contrib)
    requires
        sorted_by(s, contrib_order()),
    ensures
        sorted_by(insert_sorted(s, x), contrib_order()),
        insert_sorted(s, x).to_multiset() == s.to_multiset().insert(x),
        insert_sorted(s, x).len() == s.len() + 1,
    decreases s.len(),
{
    broadcast use group_to_multiset_ensures;
    broadcast use group_multiset_axioms;

    lemma_contrib_total_ordering();
    let leq = contrib_order();
    if s.len() == 0 {
        assert(insert_sorted(s, x) =~= s.push(x));
    } else if contrib_leq(x, s[0]) {
        lemma_new_first_element_still_sorted_by(x, s, leq);
        lemma_multiset_commutative(seq![x], s);
        assert(seq![x] =~= Seq::<Contrib>::empty().push(x));
        assert((seq![x] + s).to_multiset() =~= s.to_multiset().insert(x));
    } else {
        let tail = s.drop_first();
        assert(sorted_by(tail, leq)) by {
            assert forall|i: int, j: int| 0 <= i < j < tail.len() implies #[trigger] leq(
                tail[i],
                tail[j],
            ) by {
                assert(leq(s[i + 1], s[j + 1]));
            }
        }
        lemma_insert_sorted_ensures(tail, x);
        let ins = insert_sorted(tail, x);
        assert(ins.len() > 0);
        assert(leq(s[0], ins[0])) by {
            assert(ins.to_multiset().contains(ins[0]));
            if ins[0] == x {
                assert(leq(x, s[0]) || leq(s[0], x));
            } else {
                assert(tail.to_multiset().contains(ins[0]));
                let k = choose|k: int| 0 <= k < tail.len() && tail[k] == ins[0];
                assert(leq(s[0], s[k + 1]));
            }
        }
        lemma_new_first_element_still_sorted_by(s[0], ins, leq);
        lemma_multiset_commutative(seq![s[0]], ins);
        lemma_multiset_commutative(seq![s[0]], tail);
        assert(seq![s[0]] + tail =~= s);
        assert(seq![s[0]] =~= Seq::<Contrib>::empty().push(s[0]));
        assert((seq![s[0]] + ins).to_multiset() =~= s.to_multiset().insert(x));
    }
}

pub proof fn lemma_sort_contribs_ensures(s: Seq<Contrib>)
    ensures
        sorted_by(sort_contribs(s), contrib_order()),
        sort_contribs(s).to_multiset() == s.to_multiset(),
    decreases s.len(),
{
    broadcast use group_to_multiset_ensures;
    broadcast use group_multiset_axioms;

    if s.len() == 0 {
    } else {
        let rest = s.drop_last();
        lemma_sort_contribs_ensures(rest);
        lemma_insert_sorted_ensures(sort_contribs(rest), s.last());
        assert(s =~= rest.push(s.last()));
        assert(s.to_multiset() =~= rest.to_multiset().insert(s.last()));
        assert(Seq::<Contrib>::empty().push(s.last()).to_multiset() =~= Multiset::empty().insert(
            s.last(),
        ));
        assert(sort_contribs(s).to_multiset() =~= s.to_multiset());
    }
}

/// Any two sequences of contributions with the same elements sort to the
/// same arrangement: the merge's order is canonical.
pub proof fn lemma_sort_contribs_of_multiset(s1: Seq<Contrib>, s2: Seq<Contrib>)
    requires
        s1.to_multiset() == s2.to_multiset(),
    ensures
        sort_contribs(s1) == sort_contribs(s2),
{
    lemma_contrib_total_ordering();
    lemma_sort_contribs_ensures(s1);
    lemma_sort_contribs_ensures(s2);
    lemma_sorted_unique(sort_contribs(s1), sort_contribs(s2), contrib_order());
}

/// The tag stored under `name`, if any.
pub open spec fn lookup_tag(tags: Seq<TagDefView>, name: Seq<char>) -> Option<TagView>
    decreases tags.len(),
{
    if tags.len() == 0 {
        None
    } else if tags[0].name == name {
        Some(tags[0].tag)
    } else {
        lookup_tag(tags.drop_first(), name)
    }
}

/// What one referenced tag name contributes to a merge: nothing when the
/// name is not defined (a soft condition, not an error) or when the defined
/// tag does not set the requested field, and otherwise one value under the
/// tag's priority and name.
pub open spec fn contrib_one(tags: Seq<TagDefView>, name: Seq<char>, f: EffectField) -> Seq<
    Contrib,
> {
    match lookup_tag(tags, name) {
        None => Seq::empty(),
        Some(t) => match field_of(t, f) {
            None => Seq::empty(),
            Some(v) => seq![Contrib { priority: priority_of(t), name: name, value: v }],
        },
    }
}

/// All contributions of a list of referenced tag names, in reference order.
pub open spec fn contribs(tags: Seq<TagDefView>, names: Seq<Seq<char>>, f: EffectField) -> Seq<
    Contrib,
>
    decreases names.len(),
{
    if names.len() == 0 {
        Seq::empty()
    } else {
        contribs(tags, names.drop_last(), f) + contrib_one(tags, names.last(), f)
    }
}

/// The values of the contributions, in order.
pub open spec fn values_of(s: Seq<Contrib>) -> Seq<Seq<char>> {
    s.map_values(|c: Contrib| c.value)
}

/// The separator the command joiner uses.
pub open spec fn amp() -> Seq<char> {
    seq![' ', '&', '&', ' ']
}

/// The values joined with `" && "` between neighbours.
pub open spec fn join_values(vals: Seq<Seq<char>>) -> Seq<char>
    decreases vals.len(),
{
    if vals.len() == 0 {
        Seq::empty()
    } else if vals.len() == 1 {
        vals[0]
    } else {
        join_values(vals.drop_last()) + amp() + vals.last()
    }
}

/// The result of the generic tag merge: nothing when the project has no tag
/// references or the settings define no tags at all, and otherwise the
/// joined contributions of the referenced names, unless there are none.
pub open spec fn merge_result(
    tags: Option<Seq<TagDefView>>,
    names: Option<Seq<Seq<char>>>,
    f: EffectField,
    j: Joiner,
) -> Option<Seq<char>> {
    match (names, tags) {
        (Some(ns), Some(ts)) => {
            let sorted = sort_contribs(contribs(ts, ns, f));
            if sorted.len() == 0 {
                None
            } else {
                match j {
                    Joiner::OrderedJoin => Some(join_values(values_of(sorted))),
                    Joiner::LastWins => Some(sorted.last().value),
                }
            }
        },
        _ => None,
    }
}

/// The effective post-clone command: the project's own setting when present,
/// otherwise the tag merge, otherwise nothing.
pub open spec fn spec_resolve_after_clone(c: ConfigView, p: ProjectView) -> Option<Seq<char>> {
    match p.after_clone {
        Some(v) => Some(v),
        None => merge_result(c.settings.tags, p.tags, EffectField::AfterClone, Joiner::OrderedJoin),
    }
}

/// The effective post-activation command: never absent; when the project
/// field and the tag merge both yield nothing it is the empty string, and
/// otherwise `" && "` is prepended so that it can be appended directly after
/// a shell's activation command.
pub open spec fn spec_resolve_after_workon(c: ConfigView, p: ProjectView) -> Seq<char> {
    let base = match p.after_workon {
        Some(v) => Some(v),
        None => merge_result(
            c.settings.tags,
            p.tags,
            EffectField::AfterWorkon,
            Joiner::OrderedJoin,
        ),
    };
    match base {
        Some(v) => amp() + v,
        None => Seq::empty(),
    }
}

/// The effective workspace directory: the highest-priority tag workspace,
/// falling back to the global workspace setting.
pub open spec fn spec_resolve_workspace(c: ConfigView, p: ProjectView) -> Seq<char> {
    match merge_result(c.settings.tags, p.tags, EffectField::Workspace, Joiner::LastWins) {
        Some(w) => w,
        None => c.settings.workspace,
    }
}

/// Prefix a post-activation command so that it chains after the shell's
/// activation command.
pub fn prepare_workon(workon: &str) -> (r: String)
    ensures
        r@ == amp() + workon@,
{
    let mut r = " && ".to_owned();
    r.append(workon);
    proof {
        reveal_strlit(" && ");
        assert(" && "@ =~= amp());
    }
    r
}

/// The requested field of a tag.
fn field_ref<'a>(t: &'a Tag, f: EffectField) -> (r: &'a Option<String>)
    ensures
        view_opt(*r) == field_of(t@, f),
{
    match f {
        EffectField::AfterClone => &t.after_clone,
        EffectField::AfterWorkon => &t.after_workon,
        EffectField::Workspace => &t.workspace,
    }
}

/// Compare two contributions in the contribution order.
fn contrib_le(a: &ContribEntry, b: &ContribEntry) -> (r: bool)
    ensures
        r == contrib_leq(a@, b@),
{
    if a.priority != b.priority {
        a.priority < b.priority
    } else if !str_eq(a.name.as_str(), b.name.as_str()) {
        str_leq(a.name.as_str(), b.name.as_str())
    } else {
        str_leq(a.value.as_str(), b.value.as_str())
    }
}

/// The position before which `insert_sorted` places `x`.
fn find_insert_pos(out: &Vec<ContribEntry>, x: &ContribEntry) -> (pos: usize)
    ensures
        pos <= out@.len(),
        forall|k: int| 0 <= k < pos ==> !contrib_leq(x@, #[trigger] contribs_view(out@)[k]),
        pos < out@.len() ==> contrib_leq(x@, contribs_view(out@)[pos as int]),
{
    let mut pos: usize = 0;
    while pos < out.len()
        invariant
            pos <= out@.len(),
            forall|k: int| 0 <= k < pos ==> !contrib_leq(x@, #[trigger] contribs_view(out@)[k]),
        decreases out@.len() - pos,
    {
        if contrib_le(x, &out[pos]) {
            return pos;
        }
        pos = pos + 1;
    }
    pos
}

/// `insert_sorted` splits at the first position whose element `x` is below.
proof fn lemma_insert_sorted_at(s: Seq<Contrib>, x: Contrib, p: int)
    requires
        0 <= p <= s.len(),
        forall|k: int| 0 <= k < p ==> !contrib_leq(x, #[trigger] s[k]),
        p < s.len() ==> contrib_leq(x, s[p]),
    ensures
        insert_sorted(s, x) == s.subrange(0, p) + seq![x] + s.subrange(p, s.len() as int),
    decreases s.len(),
{
    if s.len() == 0 {
        assert(insert_sorted(s, x) =~= s.subrange(0, p) + seq![x] + s.subrange(p, s.len() as int));
    } else if p == 0 {
        assert(contrib_leq(x, s[0]));
        assert(seq![x] + s =~= s.subrange(0, 0) + seq![x] + s.subrange(0, s.len() as int));
    } else {
        assert(!contrib_leq(x, s[0]));
        let tail = s.drop_first();
        assert(forall|k: int| 0 <= k < p - 1 ==> !contrib_leq(x, #[trigger] tail[k]));
        lemma_insert_sorted_at(tail, x, p - 1);
        assert(seq![s[0]] + (tail.subrange(0, p - 1) + seq![x] + tail.subrange(
            p - 1,
            tail.len() as int,
        )) =~= s.subrange(0, p) + seq![x] + s.subrange(p, s.len() as int));
    }
}

impl Config {
    /// The priority of a tag, or the default when the tag sets none.
    pub fn tag_priority_or_fallback(&self, tag: &Tag) -> (p: u8)
        ensures
            p == priority_of(tag@),
    {
        match tag.priority {
            Some(p) => p,
            None => DEFAULT_PRIORITY,
        }
    }

    /// The generic tag merge shared by the three resolvers.
    fn resolve_from_tags(
        &self,
        field: EffectField,
        joiner: Joiner,
        maybe_tags: &Option<Vec<String>>,
    ) -> (r: Option<String>)
        ensures
            view_opt(r) == merge_result(
                self@.settings.tags,
                view_opt_strings(*maybe_tags),
                field,
                joiner,
            ),
    {
        let names = match maybe_tags {
            None => {
                return None;
            },
            Some(names) => names,
        };
        let defs = match &self.settings.tags {
            None => {
                return None;
            },
            Some(defs) => defs,
        };
        let ghost tv = view_tag_defs(defs@);
        let ghost nv = view_strings(names@);
        let mut sorted: Vec<ContribEntry> = Vec::new();
        let mut i: usize = 0;
        proof {
            assert(nv.subrange(0, 0) =~= Seq::<Seq<char>>::empty());
            assert(contribs_view(sorted@) =~= Seq::<Contrib>::empty());
        }
        while i < names.len()
            invariant
                i <= names@.len(),
                nv == view_strings(names@),
                tv == view_tag_defs(defs@),
                sorted_by(contribs_view(sorted@), contrib_order()),
                contribs_view(sorted@) == sort_contribs(contribs(tv, nv.subrange(0, i as int), field)),
            decreases names@.len() - i,
        {
            let ghost pre = contribs(tv, nv.subrange(0, i as int), field);
            proof {
                assert(nv.subrange(0, i + 1).drop_last() =~= nv.subrange(0, i as int));
                assert(nv.subrange(0, i + 1).last() == nv[i as int]);
                assert(nv[i as int] == names@[i as int]@);
            }
            match find_tag(defs, names[i].as_str()) {
                None => {
                    proof {
                        assert(contrib_one(tv, nv[i as int], field) =~= Seq::<Contrib>::empty());
                        assert(contribs(tv, nv.subrange(0, i + 1), field) =~= pre);
                    }
                },
                Some(tag) => {
                    match field_ref(tag, field) {
                        None => {
                            proof {
                                assert(contrib_one(tv, nv[i as int], field) =~= Seq::<
                                    Contrib,
                                >::empty());
                                assert(contribs(tv, nv.subrange(0, i + 1), field) =~= pre);
                            }
                        },
                        Some(v) => {
                            let entry = ContribEntry {
                                priority: self.tag_priority_or_fallback(tag),
                                name: names[i].clone(),
                                value: v.clone(),
                            };
                            let ghost old_sorted = contribs_view(sorted@);
                            let pos = find_insert_pos(&sorted, &entry);
                            sorted.insert(pos, entry);
                            proof {
                                assert(contrib_one(tv, nv[i as int], field) =~= seq![entry@]);
                                assert(contribs(tv, nv.subrange(0, i + 1), field) =~= pre.push(
                                    entry@,
                                ));
                                assert(pre.push(entry@).drop_last() =~= pre);
                                lemma_insert_sorted_at(old_sorted, entry@, pos as int);
                                lemma_insert_sorted_ensures(old_sorted, entry@);
                                assert(contribs_view(sorted@) =~= old_sorted.subrange(
                                    0,
                                    pos as int,
                                ) + seq![entry@] + old_sorted.subrange(
                                    pos as int,
                                    old_sorted.len() as int,
                                ));
                            }
                        },
                    }
                },
            }
            i = i + 1;
        }
        proof {
            assert(nv.subrange(0, names@.len() as int) =~= nv);
        }
        let ghost sview = contribs_view(sorted@);
        if sorted.len() == 0 {
            return None;
        }
        match joiner {
            Joiner::OrderedJoin => {
                let mut values: Vec<String> = Vec::new();
                let mut j: usize = 0;
                while j < sorted.len()
                    invariant
                        j <= sorted@.len(),
                        sview == contribs_view(sorted@),
                        view_strings(values@) == values_of(sview).subrange(0, j as int),
                    decreases sorted@.len() - j,
                {
                    let ghost prev = values@;
                    let val = sorted[j].value.clone();
                    values.push(val);
                    proof {
                        assert(values@ == prev.push(values@[prev.len() as int]));
                        assert(view_strings(prev).len() == prev.len());
                        assert(prev.len() == j as int);
                        assert(values@.len() == j + 1);
                        assert(values_of(sview).len() == sview.len());
                        assert forall|k: int| 0 <= k < j + 1 implies view_strings(values@)[k]
                            == values_of(sview).subrange(0, j + 1)[k] by {
                            assert(view_strings(values@)[k] == values@[k]@);
                            if k < j {
                                assert(values@[k] == prev[k]);
                                assert(view_strings(prev)[k] == values_of(sview).subrange(
                                    0,
                                    j as int,
                                )[k]);
                                assert(view_strings(prev)[k] == prev[k]@);
                            } else {
                                assert(values@[k]@ == sview[k].value);
                                assert(values_of(sview)[k] == sview[k].value);
                            }
                        }
                        assert(view_strings(values@) =~= values_of(sview).subrange(0, j + 1));
                    }
                    j = j + 1;
                }
                proof {
                    assert(values_of(sview).subrange(0, sview.len() as int) =~= values_of(sview));
                }
                Some(join_amp(&values))
            },
            Joiner::LastWins => {
                let last = sorted.len() - 1;
                Some(sorted[last].value.clone())
            },
        }
    }

    /// The effective post-clone command of a project.
    pub fn resolve_after_clone(&self, project: &Project) -> (r: Option<String>)
        ensures
            view_opt(r) == spec_resolve_after_clone(self@, project@),
    {
        match &project.after_clone {
            Some(v) => Some(v.clone()),
            None => self.resolve_from_tags(
                EffectField::AfterClone,
                Joiner::OrderedJoin,
                &project.tags,
            ),
        }
    }

    /// The effective post-activation command of a project; empty when
    /// neither the project nor any referenced tag supplies one.
    pub fn resolve_after_workon(&self, project: &Project) -> (r: String)
        ensures
            r@ == spec_resolve_after_workon(self@, project@),
    {
        let base = match &project.after_workon {
            Some(v) => Some(v.clone()),
            None => self.resolve_from_tags(
                EffectField::AfterWorkon,
                Joiner::OrderedJoin,
                &project.tags,
            ),
        };
        match base {
            Some(c) => prepare_workon(c.as_str()),
            None => String::new(),
        }
    }

    /// The effective workspace directory of a project.
    pub(crate) fn resolve_workspace(&self, project: &Project) -> (r: String)
        ensures
            r@ == spec_resolve_workspace(self@, project@),
    {
        let merged = self.resolve_from_tags(
            EffectField::Workspace,
            Joiner::LastWins,
            &project.tags,
        );
        match merged {
            Some(w) => w,
            None => self.settings.workspace.clone(),
        }
    }
}

/// The tag definition stored under `name`, if any.
fn find_tag<'a>(defs: &'a Vec<TagDef>, name: &str) -> (r: Option<&'a Tag>)
    ensures
        match r {
            Some(t) => lookup_tag(view_tag_defs(defs@), name@) == Some(t@),
            None => lookup_tag(view_tag_defs(defs@), name@) is None,
        },
{
    let ghost tv = view_tag_defs(defs@);
    let mut i: usize = 0;
    proof {
        assert(tv.skip(0) =~= tv);
    }
    while i < defs.len()
        invariant
            i <= defs@.len(),
            tv == view_tag_defs(defs@),
            lookup_tag(tv, name@) == lookup_tag(tv.skip(i as int), name@),
        decreases defs@.len() - i,
    {
        proof {
            assert(tv.skip(i as int)[0] == tv[i as int]);
        }
        if str_eq(defs[i].name.as_str(), name) {
            return Some(&defs[i].tag);
        }
        proof {
            assert(tv.skip(i as int).drop_first() =~= tv.skip(i + 1));
        }
        i = i + 1;
    }
    proof {
        assert(tv.skip(defs@.len() as int).len() == 0);
    }
    None
}

/// Join strings with `" && "` between neighbours.
fn join_amp(vals: &Vec<String>) -> (r: String)
    ensures
        r@ == join_values(view_strings(vals@)),
{
    let ghost vs = view_strings(vals@);
    if vals.len() == 0 {
        return String::new();
    }
    let mut acc: String = vals[0].clone();
    let mut i: usize = 1;
    proof {
        assert(vs.subrange(0, 1).len() == 1);
        assert(vs.subrange(0, 1)[0] == vs[0]);
    }
    while i < vals.len()
        invariant
            1 <= i <= vals@.len(),
            vs == view_strings(vals@),
            acc@ == join_values(vs.subrange(0, i as int)),
        decreases vals@.len() - i,
    {
        acc.append(" && ");
        acc.append(vals[i].as_str());
        proof {
            reveal_strlit(" && ");
            assert(" && "@ =~= amp());
            assert(vs.subrange(0, i + 1).drop_last() =~= vs.subrange(0, i as int));
            assert(vs.subrange(0, i + 1).last() == vs[i as int]);
        }
        i = i + 1;
    }
    proof {
        assert(vs.subrange(0, vals@.len() as int) =~= vs);
    }
    acc
}

} // verus!
