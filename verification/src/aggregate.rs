//! Deduplication and deterministic ordering of resolved stories.
//!
//! Failures are discarded, duplicates (same identity: id and name) collapse
//! to their first occurrence, and the survivors are sorted ascending by id
//! with ties keeping their relative order. Which identities come out, and in
//! what order, depends only on the multiset of stories, never on the order
//! the lookups arrived in; each identity is represented by its first-seen
//! record.

use vstd::prelude::*;

use crate::types::{same_story, Story, StoryView, TrackerResponse, TrackerResponseView};

verus! {

/// The stories among the outcomes, failures discarded, order kept.
pub open spec fn stories_of(s: Seq<TrackerResponseView>) -> Seq<StoryView>
    decreases s.len(),
{
    if s.len() == 0 {
        Seq::empty()
    } else {
        let rest = stories_of(s.drop_last());
        match s.last() {
            TrackerResponseView::StoryResponse(st) => rest.push(st),
            TrackerResponseView::ErrorResponse(_) => rest,
        }
    }
}

/// Some position before `i` holds a story of the same identity.
pub open spec fn has_earlier_same(s: Seq<StoryView>, i: int) -> bool {
    exists|j: int| 0 <= j < i && same_story(s[j], s[i])
}

/// First occurrence wins: keeps exactly the stories whose identity no
/// earlier story shares.
pub open spec fn dedup_stories(s: Seq<StoryView>) -> Seq<StoryView>
    decreases s.len(),
{
    if s.len() == 0 {
        Seq::empty()
    } else {
        let rest = dedup_stories(s.drop_last());
        if has_earlier_same(s, s.len() - 1) {
            rest
        } else {
            rest.push(s.last())
        }
    }
}

/// `x` placed before the first element of greater id, so that insertion
/// keeps the relative order of equal ids.
pub open spec fn insert_by_id(s: Seq<StoryView>, x: StoryView) -> Seq<StoryView>
    decreases s.len(),
{
    if s.len() == 0 {
        seq![x]
    } else if s[0].id <= x.id {
        seq![s[0]] + insert_by_id(s.drop_first(), x)
    } else {
        seq![x] + s
    }
}

/// Stable insertion sort, ascending by id.
pub open spec fn sort_by_id(s: Seq<StoryView>) -> Seq<StoryView>
    decreases s.len(),
{
    if s.len() == 0 {
        Seq::empty()
    } else {
        insert_by_id(sort_by_id(s.drop_last()), s.last())
    }
}

/// Ascending by id.
pub open spec fn sorted_by_id(s: Seq<StoryView>) -> bool {
    forall|i: int, j: int| 0 <= i < j < s.len() ==> s[i].id <= s[j].id
}

/// No two stories of one identity.
pub open spec fn identity_distinct(s: Seq<StoryView>) -> bool {
    forall|i: int, j: int| 0 <= i < j < s.len() ==> !same_story(s[i], s[j])
}

/// Some story in `d` has the same identity as `x`.
pub open spec fn represented(d: Seq<StoryView>, x: StoryView) -> bool {
    exists|k: int| 0 <= k < d.len() && same_story(d[k], x)
}

/// `x` is, whole, the story at some position of `s` whose identity no
/// earlier position shares.
pub open spec fn first_occurrence_of(s: Seq<StoryView>, x: StoryView) -> bool {
    exists|i: int| 0 <= i < s.len() && s[i] == x && !has_earlier_same(s, i)
}

/// What aggregation makes of a sequence of stories.
pub open spec fn agg_stories(s: Seq<StoryView>) -> Seq<StoryView> {
    sort_by_id(dedup_stories(s))
}

/// What aggregation makes of the outcomes: failures discarded, duplicates
/// collapsed to their first occurrence, the rest sorted ascending by id.
pub open spec fn aggregate_spec(outcomes: Seq<TrackerResponseView>) -> Seq<StoryView> {
    agg_stories(stories_of(outcomes))
}

/// Where the insertion lands: just before the first element of greater id.
proof fn lemma_insert_by_id_at(s: Seq<StoryView>, x: StoryView, p: int)
    requires
        0 <= p <= s.len(),
        forall|j: int| 0 <= j < p ==> s[j].id <= x.id,
        p < s.len() ==> s[p].id > x.id,
    ensures
        insert_by_id(s, x) == s.take(p) + seq![x] + s.skip(p),
    decreases s.len(),
{
    if s.len() == 0 {
        assert(insert_by_id(s, x) =~= s.take(p) + seq![x] + s.skip(p));
    } else if s[0].id <= x.id {
        lemma_insert_by_id_at(s.drop_first(), x, p - 1);
        assert(s.drop_first().take(p - 1) =~= s.take(p).drop_first());
        assert(s.drop_first().skip(p - 1) =~= s.skip(p));
        assert(seq![s[0]] + (s.drop_first().take(p - 1) + seq![x] + s.drop_first().skip(p - 1))
            =~= s.take(p) + seq![x] + s.skip(p));
    } else {
        assert(seq![x] + s =~= s.take(0) + seq![x] + s.skip(0));
    }
}

/// Every element of the insertion's result is an element of `s`, or `x`.
proof fn lemma_insert_contains(s: Seq<StoryView>, x: StoryView, y: StoryView)
    ensures
        insert_by_id(s, x).contains(y) <==> (s.contains(y) || y == x),
    decreases s.len(),
{
    if s.len() == 0 {
        assert(insert_by_id(s, x) == seq![x]);
        if y == x {
            assert(seq![x].contains(y)) by { assert(seq![x][0] == y) };
        }
        if seq![x].contains(y) {
            let k = choose|k: int| 0 <= k < seq![x].len() && seq![x][k] == y;
            assert(y == x);
        }
    } else if s[0].id <= x.id {
        lemma_insert_contains(s.drop_first(), x, y);
        let t = seq![s[0]] + insert_by_id(s.drop_first(), x);
        assert(insert_by_id(s, x) == t);
        if t.contains(y) {
            let k = choose|k: int| 0 <= k < t.len() && t[k] == y;
            if k == 0 {
                assert(s.contains(y)) by { assert(s[0] == y) };
            } else {
                assert(insert_by_id(s.drop_first(), x).contains(y)) by {
                    assert(insert_by_id(s.drop_first(), x)[k - 1] == y);
                }
                if s.drop_first().contains(y) {
                    let m = choose|m: int| 0 <= m < s.drop_first().len() && s.drop_first()[m] == y;
                    assert(s[m + 1] == y);
                }
            }
        }
        if s.contains(y) {
            let k = choose|k: int| 0 <= k < s.len() && s[k] == y;
            if k == 0 {
                assert(t[0] == y);
            } else {
                assert(s.drop_first()[k - 1] == y);
                assert(insert_by_id(s.drop_first(), x).contains(y));
                let m = choose|m: int|
                    0 <= m < insert_by_id(s.drop_first(), x).len() && insert_by_id(
                        s.drop_first(),
                        x,
                    )[m] == y;
                assert(t[m + 1] == y);
            }
        } else if y == x {
            assert(insert_by_id(s.drop_first(), x).contains(y));
            let m = choose|m: int|
                0 <= m < insert_by_id(s.drop_first(), x).len() && insert_by_id(s.drop_first(), x)[m]
                    == y;
            assert(t[m + 1] == y);
        }
    } else {
        let t = seq![x] + s;
        assert(insert_by_id(s, x) == t);
        if t.contains(y) {
            let k = choose|k: int| 0 <= k < t.len() && t[k] == y;
            if k > 0 {
                assert(s[k - 1] == y);
            }
        }
        if s.contains(y) {
            let k = choose|k: int| 0 <= k < s.len() && s[k] == y;
            assert(t[k + 1] == y);
        }
        if y == x {
            assert(t[0] == y);
        }
    }
}

/// Sorting neither adds nor loses a value.
proof fn lemma_sort_contains(s: Seq<StoryView>, y: StoryView)
    ensures
        sort_by_id(s).contains(y) <==> s.contains(y),
    decreases s.len(),
{
    if s.len() > 0 {
        lemma_sort_contains(s.drop_last(), y);
        lemma_insert_contains(sort_by_id(s.drop_last()), s.last(), y);
        if s.contains(y) {
            let k = choose|k: int| 0 <= k < s.len() && s[k] == y;
            if k < s.len() - 1 {
                assert(s.drop_last()[k] == y);
            }
        }
        if s.drop_last().contains(y) {
            let k = choose|k: int| 0 <= k < s.drop_last().len() && s.drop_last()[k] == y;
            assert(s[k] == y);
        }
        if y == s.last() {
            assert(s.contains(y)) by { assert(s[s.len() - 1] == y) };
        }
    }
}

/// Insertion keeps the order.
proof fn lemma_insert_sorted(s: Seq<StoryView>, x: StoryView)
    requires
        sorted_by_id(s),
    ensures
        sorted_by_id(insert_by_id(s, x)),
    decreases s.len(),
{
    if s.len() == 0 {
    } else if s[0].id <= x.id {
        assert(sorted_by_id(s.drop_first()));
        lemma_insert_sorted(s.drop_first(), x);
        let rest = insert_by_id(s.drop_first(), x);
        let t = seq![s[0]] + rest;
        assert forall|i: int, j: int| 0 <= i < j < t.len() implies t[i].id <= t[j].id by {
            if i == 0 {
                assert(rest.contains(t[j])) by { assert(rest[j - 1] == t[j]) };
                lemma_insert_contains(s.drop_first(), x, t[j]);
                if s.drop_first().contains(t[j]) {
                    let m = choose|m: int|
                        0 <= m < s.drop_first().len() && s.drop_first()[m] == t[j];
                    assert(s[m + 1] == t[j]);
                }
            } else {
                assert(rest[i - 1].id <= rest[j - 1].id);
            }
        }
    } else {
        let t = seq![x] + s;
        assert forall|i: int, j: int| 0 <= i < j < t.len() implies t[i].id <= t[j].id by {
            if i > 0 {
                assert(s[i - 1].id <= s[j - 1].id);
            } else {
                assert(t[j] == s[j - 1]);
                assert(x.id <= s[j - 1].id);
            }
        }
    }
}

/// The sort's output is ascending by id.
pub proof fn lemma_sort_sorted(s: Seq<StoryView>)
    ensures
        sorted_by_id(sort_by_id(s)),
    decreases s.len(),
{
    if s.len() > 0 {
        lemma_sort_sorted(s.drop_last());
        lemma_insert_sorted(sort_by_id(s.drop_last()), s.last());
    }
}

/// Insertion keeps identities distinct when the new story's identity is new.
proof fn lemma_insert_preserves_distinct(s: Seq<StoryView>, x: StoryView)
    requires
        identity_distinct(s),
        forall|j: int| 0 <= j < s.len() ==> !same_story(s[j], x),
    ensures
        identity_distinct(insert_by_id(s, x)),
    decreases s.len(),
{
    if s.len() == 0 {
    } else if s[0].id <= x.id {
        assert(identity_distinct(s.drop_first())) by {
            assert(forall|i: int, j: int|
                0 <= i < j < s.drop_first().len() ==> s.drop_first()[i] == s[i + 1]
                    && s.drop_first()[j] == s[j + 1]);
        }
        assert(forall|j: int| 0 <= j < s.drop_first().len() ==> !same_story(
            #[trigger] s.drop_first()[j],
            x,
        )) by {
            assert(forall|j: int| 0 <= j < s.drop_first().len() ==> s.drop_first()[j] == s[j + 1]);
        }
        lemma_insert_preserves_distinct(s.drop_first(), x);
        let rest = insert_by_id(s.drop_first(), x);
        let t = seq![s[0]] + rest;
        assert forall|i: int, j: int| 0 <= i < j < t.len() implies !same_story(t[i], t[j]) by {
            if i == 0 {
                assert(rest.contains(t[j])) by { assert(rest[j - 1] == t[j]) };
                lemma_insert_contains(s.drop_first(), x, t[j]);
                if s.drop_first().contains(t[j]) {
                    let m = choose|m: int|
                        0 <= m < s.drop_first().len() && s.drop_first()[m] == t[j];
                    assert(s[m + 1] == t[j]);
                    assert(!same_story(s[0], s[m + 1]));
                } else {
                    assert(t[j] == x);
                    assert(!same_story(s[0], x));
                }
            } else {
                assert(!same_story(rest[i - 1], rest[j - 1]));
            }
        }
    } else {
        let t = seq![x] + s;
        assert forall|i: int, j: int| 0 <= i < j < t.len() implies !same_story(t[i], t[j]) by {
            if i == 0 {
                assert(t[j] == s[j - 1]);
                assert(!same_story(s[j - 1], x));
            } else {
                assert(!same_story(s[i - 1], s[j - 1]));
            }
        }
    }
}

/// Sorting keeps identities distinct.
pub proof fn lemma_sort_preserves_distinct(s: Seq<StoryView>)
    requires
        identity_distinct(s),
    ensures
        identity_distinct(sort_by_id(s)),
    decreases s.len(),
{
    if s.len() > 0 {
        assert(identity_distinct(s.drop_last()));
        lemma_sort_preserves_distinct(s.drop_last());
        let rest = sort_by_id(s.drop_last());
        assert forall|j: int| 0 <= j < rest.len() implies !same_story(rest[j], s.last()) by {
            assert(rest.contains(rest[j]));
            lemma_sort_contains(s.drop_last(), rest[j]);
            let m = choose|m: int| 0 <= m < s.drop_last().len() && s.drop_last()[m] == rest[j];
            assert(s[m] == rest[j]);
            assert(!same_story(s[m], s[s.len() - 1]));
        }
        lemma_insert_preserves_distinct(rest, s.last());
    }
}

/// Each deduplicated story is an input story whose identity no earlier input
/// story shares: the first occurrence.
proof fn lemma_dedup_elements(s: Seq<StoryView>)
    ensures
        forall|k: int|
            0 <= k < dedup_stories(s).len() ==> first_occurrence_of(
                s,
                #[trigger] dedup_stories(s)[k],
            ),
    decreases s.len(),
{
    if s.len() > 0 {
        lemma_dedup_elements(s.drop_last());
        let rest = dedup_stories(s.drop_last());
        let d = dedup_stories(s);
        assert forall|k: int| 0 <= k < d.len() implies first_occurrence_of(s, #[trigger] d[k]) by {
            if k < rest.len() {
                assert(first_occurrence_of(s.drop_last(), rest[k]));
                let i = choose|i: int|
                    0 <= i < s.drop_last().len() && s.drop_last()[i] == rest[k]
                        && !has_earlier_same(s.drop_last(), i);
                assert(s.drop_last()[i] == s[i]);
                assert(!has_earlier_same(s, i)) by {
                    assert(forall|j: int| 0 <= j < i ==> s.drop_last()[j] == s[j]);
                }
                assert(d[k] == s[i]);
            } else {
                assert(!has_earlier_same(s, s.len() - 1));
                assert(d[k] == s[s.len() - 1]);
            }
        }
    }
}

/// Deduplication leaves no two stories of one identity.
pub proof fn lemma_dedup_distinct(s: Seq<StoryView>)
    ensures
        identity_distinct(dedup_stories(s)),
    decreases s.len(),
{
    if s.len() > 0 {
        lemma_dedup_distinct(s.drop_last());
        let rest = dedup_stories(s.drop_last());
        let d = dedup_stories(s);
        if !has_earlier_same(s, s.len() - 1) {
            lemma_dedup_elements(s.drop_last());
            assert forall|i: int, j: int| 0 <= i < j < d.len() implies !same_story(d[i], d[j]) by {
                if j == rest.len() {
                    assert(d[i] == rest[i]);
                    let m = choose|m: int|
                        0 <= m < s.drop_last().len() && rest[i] == s.drop_last()[m]
                            && !has_earlier_same(s.drop_last(), m);
                    assert(s.drop_last()[m] == s[m]);
                    if same_story(d[i], d[j]) {
                        assert(same_story(s[m], s[s.len() - 1]));
                        assert(has_earlier_same(s, s.len() - 1));
                    }
                } else {
                    assert(!same_story(rest[i], rest[j]));
                }
            }
        }
    }
}

/// Every input story's identity is represented after deduplication.
proof fn lemma_dedup_represents(s: Seq<StoryView>)
    ensures
        forall|i: int| 0 <= i < s.len() ==> represented(dedup_stories(s), #[trigger] s[i]),
    decreases s.len(),
{
    if s.len() > 0 {
        lemma_dedup_represents(s.drop_last());
        let rest = dedup_stories(s.drop_last());
        let d = dedup_stories(s);
        assert forall|i: int| 0 <= i < s.len() implies represented(d, #[trigger] s[i]) by {
            if i < s.len() - 1 {
                assert(s.drop_last()[i] == s[i]);
                assert(represented(rest, s.drop_last()[i]));
                let k = choose|k: int| 0 <= k < rest.len() && same_story(rest[k], s.drop_last()[i]);
                assert(d[k] == rest[k]);
                assert(same_story(d[k], s[i]));
            } else {
                if has_earlier_same(s, s.len() - 1) {
                    let j = choose|j: int| 0 <= j < s.len() - 1 && same_story(s[j], s[i]);
                    assert(s.drop_last()[j] == s[j]);
                    assert(represented(rest, s.drop_last()[j]));
                    let k = choose|k: int|
                        0 <= k < rest.len() && same_story(rest[k], s.drop_last()[j]);
                    assert(d[k] == rest[k]);
                    assert(same_story(d[k], s[i]));
                } else {
                    assert(d[rest.len() as int] == s[i]);
                    assert(same_story(d[rest.len() as int], s[i]));
                }
            }
        }
    }
}

/// Deduplicating an already-deduplicated sequence changes nothing.
proof fn lemma_dedup_of_distinct(s: Seq<StoryView>)
    requires
        identity_distinct(s),
    ensures
        dedup_stories(s) == s,
    decreases s.len(),
{
    if s.len() > 0 {
        assert(identity_distinct(s.drop_last()));
        lemma_dedup_of_distinct(s.drop_last());
        assert(!has_earlier_same(s, s.len() - 1));
        assert(s.drop_last().push(s.last()) =~= s);
    }
}

/// Sorting an already-sorted sequence changes nothing.
proof fn lemma_sort_of_sorted(s: Seq<StoryView>)
    requires
        sorted_by_id(s),
    ensures
        sort_by_id(s) == s,
    decreases s.len(),
{
    if s.len() > 0 {
        assert(sorted_by_id(s.drop_last()));
        lemma_sort_of_sorted(s.drop_last());
        lemma_insert_by_id_at(s.drop_last(), s.last(), s.len() - 1);
        assert(s.drop_last().take(s.len() - 1) =~= s.drop_last());
        assert(s.drop_last().skip(s.len() - 1) =~= Seq::<StoryView>::empty());
        assert(s.drop_last() + seq![s.last()] + Seq::<StoryView>::empty() =~= s);
    }
}

/// Aggregation law: input that is already deduplicated and sorted passes
/// through unchanged.
pub proof fn lemma_aggregate_fixed_point(s: Seq<StoryView>)
    requires
        sorted_by_id(s),
        identity_distinct(s),
    ensures
        agg_stories(s) == s,
{
    lemma_dedup_of_distinct(s);
    lemma_sort_of_sorted(s);
}

/// Aggregation law: aggregating twice is aggregating once.
pub proof fn lemma_aggregate_idempotent(s: Seq<StoryView>)
    ensures
        agg_stories(agg_stories(s)) == agg_stories(s),
{
    lemma_dedup_distinct(s);
    lemma_sort_preserves_distinct(dedup_stories(s));
    lemma_sort_sorted(dedup_stories(s));
    lemma_aggregate_fixed_point(agg_stories(s));
}

/// Deduplication law, first seen wins: no two aggregated stories share an
/// identity; every input story's identity is represented; and each
/// aggregated story is, whole, the input's first occurrence of its identity
/// (so the first occurrence's url and kind are the ones kept).
pub proof fn lemma_aggregate_first_wins(s: Seq<StoryView>)
    ensures
        identity_distinct(agg_stories(s)),
        forall|i: int| 0 <= i < s.len() ==> represented(agg_stories(s), #[trigger] s[i]),
        forall|k: int|
            0 <= k < agg_stories(s).len() ==> first_occurrence_of(
                s,
                #[trigger] agg_stories(s)[k],
            ),
{
    let d = dedup_stories(s);
    let a = agg_stories(s);
    lemma_dedup_distinct(s);
    lemma_sort_preserves_distinct(d);
    lemma_dedup_represents(s);
    lemma_dedup_elements(s);
    assert forall|i: int| 0 <= i < s.len() implies represented(a, #[trigger] s[i]) by {
        assert(represented(d, s[i]));
        let m = choose|m: int| 0 <= m < d.len() && same_story(d[m], s[i]);
        assert(d.contains(d[m]));
        lemma_sort_contains(d, d[m]);
        let k = choose|k: int| 0 <= k < a.len() && a[k] == d[m];
        assert(same_story(a[k], s[i]));
    }
    assert forall|k: int| 0 <= k < a.len() implies first_occurrence_of(s, #[trigger] a[k]) by {
        assert(a.contains(a[k]));
        lemma_sort_contains(d, a[k]);
        let m = choose|m: int| 0 <= m < d.len() && d[m] == a[k];
        assert(first_occurrence_of(s, d[m]));
    }
}

/// Ordering law: the aggregate is ascending by id, whatever the input order.
pub proof fn lemma_aggregate_sorted(outcomes: Seq<TrackerResponseView>)
    ensures
        sorted_by_id(aggregate_spec(outcomes)),
{
    lemma_sort_sorted(dedup_stories(stories_of(outcomes)));
}

/// Some story in `d` carries this id.
pub open spec fn id_present(d: Seq<StoryView>, id: int) -> bool {
    exists|k: int| 0 <= k < d.len() && d[k].id == id
}

/// Ordering law by ids: when the input's stories of one id all share one
/// name, the aggregate carries exactly the input's ids, each once, ascending
/// — so it is determined, id for id, by the multiset of ids alone, whatever
/// order the lookups arrived in. (Without that premise two stories of one id
/// are distinct identities and the id legitimately appears twice.)
pub proof fn lemma_aggregate_ids(s: Seq<StoryView>)
    requires
        forall|i: int, j: int|
            0 <= i < s.len() && 0 <= j < s.len() && s[i].id == s[j].id ==> s[i].name == s[j].name,
    ensures
        sorted_by_id(agg_stories(s)),
        forall|k1: int, k2: int|
            0 <= k1 < k2 < agg_stories(s).len() ==> agg_stories(s)[k1].id != agg_stories(s)[k2].id,
        forall|i: int| 0 <= i < s.len() ==> id_present(agg_stories(s), #[trigger] s[i].id),
        forall|k: int|
            0 <= k < agg_stories(s).len() ==> id_present(s, #[trigger] agg_stories(s)[k].id),
{
    let a = agg_stories(s);
    lemma_aggregate_first_wins(s);
    lemma_sort_sorted(dedup_stories(s));
    assert forall|k1: int, k2: int| 0 <= k1 < k2 < a.len() implies a[k1].id != a[k2].id by {
        assert(first_occurrence_of(s, a[k1]));
        assert(first_occurrence_of(s, a[k2]));
        let i1 = choose|i: int| 0 <= i < s.len() && s[i] == a[k1] && !has_earlier_same(s, i);
        let i2 = choose|i: int| 0 <= i < s.len() && s[i] == a[k2] && !has_earlier_same(s, i);
        if a[k1].id == a[k2].id {
            assert(s[i1].name == s[i2].name);
            assert(same_story(a[k1], a[k2]));
        }
    }
    assert forall|i: int| 0 <= i < s.len() implies id_present(a, #[trigger] s[i].id) by {
        assert(represented(a, s[i]));
        let k = choose|k: int| 0 <= k < a.len() && same_story(a[k], s[i]);
        assert(a[k].id == s[i].id);
    }
    assert forall|k: int| 0 <= k < a.len() implies id_present(s, #[trigger] a[k].id) by {
        assert(first_occurrence_of(s, a[k]));
        let i = choose|i: int| 0 <= i < s.len() && s[i] == a[k] && !has_earlier_same(s, i);
        assert(s[i].id == a[k].id);
    }
}

fn clone_story(s: &Story) -> (r: Story)
    ensures
        r == *s,
{
    Story { kind: s.kind.clone(), id: s.id, name: s.name.clone(), url: s.url.clone() }
}

/// Discards the failures, collapses duplicate identities to their first
/// occurrence, and sorts ascending by id, ties keeping their relative order:
/// exactly `aggregate_spec`.
pub fn aggregate(outcomes: Vec<TrackerResponse>) -> (r: Vec<Story>)
    ensures
        r.deep_view() == aggregate_spec(outcomes.deep_view()),
{
    let ghost o = outcomes.deep_view();

    // the stories among the outcomes, order kept
    let mut stories: Vec<Story> = Vec::new();
    let mut k: usize = 0;
    while k < outcomes.len()
        invariant
            outcomes.deep_view() == o,
            k <= o.len(),
            stories.deep_view() == stories_of(o.take(k as int)),
        decreases o.len() - k,
    {
        proof {
            assert(o.take(k + 1).drop_last() =~= o.take(k as int));
            assert(o.take(k + 1).last() == o[k as int]);
        }
        match &outcomes[k] {
            TrackerResponse::StoryResponse(s) => {
                let ghost pre = stories.deep_view();
                stories.push(clone_story(s));
                proof {
                    assert(stories.deep_view() =~= pre.push(s@));
                }
            },
            TrackerResponse::ErrorResponse(_) => {},
        }
        k = k + 1;
    }
    proof {
        assert(o.take(o.len() as int) =~= o);
    }

    // first occurrence of each identity wins
    let ghost sv = stories.deep_view();
    let mut deduped: Vec<Story> = Vec::new();
    let mut i: usize = 0;
    while i < stories.len()
        invariant
            stories.deep_view() == sv,
            stories@.len() == sv.len(),
            i <= sv.len(),
            deduped.deep_view() == dedup_stories(sv.take(i as int)),
        decreases sv.len() - i,
    {
        let mut dup = false;
        let mut j: usize = 0;
        while j < i
            invariant
                stories.deep_view() == sv,
                stories@.len() == sv.len(),
                j <= i < sv.len(),
                dup == exists|t: int| 0 <= t < j && same_story(sv[t], sv[i as int]),
            decreases i - j,
        {
            let eq = stories[j] == stories[i];
            proof {
                assert(sv[j as int] == stories@[j as int].deep_view());
                assert(sv[i as int] == stories@[i as int].deep_view());
                assert(eq == same_story(sv[j as int], sv[i as int]));
            }
            if eq {
                dup = true;
            }
            j = j + 1;
        }
        proof {
            assert(sv.take(i + 1).drop_last() =~= sv.take(i as int));
            assert(sv.take(i + 1).last() == sv[i as int]);
            assert(forall|t: int| 0 <= t <= i ==> sv.take(i + 1)[t] == sv[t]);
            assert(dup == has_earlier_same(sv.take(i + 1), i as int));
        }
        if !dup {
            let ghost pre = deduped.deep_view();
            deduped.push(clone_story(&stories[i]));
            proof {
                assert(deduped.deep_view() =~= pre.push(sv[i as int]));
            }
        }
        i = i + 1;
    }
    proof {
        assert(sv.take(sv.len() as int) =~= sv);
    }

    // stable insertion sort, ascending by id
    let ghost d = deduped.deep_view();
    let mut v = deduped;
    if v.len() == 0 {
        proof {
            assert(v.deep_view() =~= sort_by_id(dedup_stories(stories_of(o))));
        }
        return v;
    }
    proof {
        assert(d.take(1).drop_last() =~= Seq::<StoryView>::empty());
        assert(sort_by_id(Seq::<StoryView>::empty()) == Seq::<StoryView>::empty());
        assert(sort_by_id(d.take(1)) == insert_by_id(Seq::<StoryView>::empty(), d.take(1).last()));
        assert(insert_by_id(Seq::<StoryView>::empty(), d.take(1).last()) == seq![d.take(1).last()]);
        assert(d.take(1).last() == d[0]);
        assert(v.deep_view().take(1) =~= seq![d[0]]);
        assert(v.deep_view().skip(1) =~= d.skip(1));
    }
    let mut i: usize = 1;
    while i < v.len()
        invariant
            v@.len() == d.len(),
            v.deep_view().len() == d.len(),
            1 <= i <= d.len(),
            v.deep_view().take(i as int) == sort_by_id(d.take(i as int)),
            v.deep_view().skip(i as int) == d.skip(i as int),
        decreases d.len() - i,
    {
        let ghost before = v.deep_view();
        let x = v.remove(i);
        let ghost mid = v.deep_view();
        proof {
            assert(mid =~= before.take(i as int) + before.skip(i + 1));
            assert(x@ == before[i as int]);
            assert(before[i as int] == d[i as int]) by {
                assert(before.skip(i as int)[0] == d.skip(i as int)[0]);
            }
            assert(forall|t: int| 0 <= t < i ==> mid[t] == before[t]);
        }
        let key = x.id;
        let mut p: usize = 0;
        while p < i && v[p].id <= key
            invariant
                v.deep_view() == mid,
                v@.len() == mid.len(),
                i <= mid.len(),
                p <= i,
                key == x.id,
                forall|t: int| 0 <= t < p ==> mid[t].id <= x@.id,
            decreases i - p,
        {
            p = p + 1;
        }
        let ghost prefix = before.take(i as int);
        proof {
            assert(forall|t: int| 0 <= t < i ==> mid[t] == prefix[t]);
            assert(p < i ==> prefix[p as int].id > x@.id);
            lemma_insert_by_id_at(prefix, x@, p as int);
        }
        v.insert(p, x);
        proof {
            let after = v.deep_view();
            assert(after =~= mid.take(p as int) + seq![x@] + mid.skip(p as int));
            assert(after.take(i + 1) =~= prefix.take(p as int) + seq![x@] + prefix.skip(p as int));
            assert(after.take(i + 1) == insert_by_id(prefix, x@));
            assert(d.take(i + 1).drop_last() =~= d.take(i as int));
            assert(d.take(i + 1).last() == d[i as int]);
            assert(after.take(i + 1) == sort_by_id(d.take(i + 1)));
            assert forall|t: int| i + 1 <= t < after.len() implies after[t] == d[t] by {
                assert(after[t] == mid[t - 1]);
                assert(mid[t - 1] == before[t]);
                assert(before.skip(i as int)[t - i] == d.skip(i as int)[t - i]);
            }
            assert(after.skip(i + 1) =~= d.skip(i + 1));
        }
        i = i + 1;
    }
    proof {
        assert(v.deep_view().take(d.len() as int) =~= v.deep_view());
        assert(d.take(d.len() as int) =~= d);
    }
    v
}

} // verus!
