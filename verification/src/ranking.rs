//! The sort policy: records ordered ascending by urgency score, so the
//! most urgent record comes last, with ties kept in input order.

use vstd::prelude::*;

use crate::grammar::measure_priority;
use crate::grammar::priority_of;
use crate::records::models_of;
use crate::records::Todo;
use crate::records::TodoModel;

verus! {

broadcast use vstd::seq_lib::group_to_multiset_ensures;

/// The urgency score of a record: always recomputed from its message.
pub open spec fn pri(m: TodoModel) -> int {
    priority_of(m.message)
}

/// Ascending by score: wherever record `a` comes before record `b`, the
/// score of `a` is at most the score of `b`.
pub open spec fn sorted_by_priority(ms: Seq<TodoModel>) -> bool {
    forall|a: int, b: int|
        0 <= a <= b < ms.len() ==> pri(#[trigger] ms[a]) <= pri(#[trigger] ms[b])
}

/// The records whose score is exactly `p`.
pub open spec fn same_pri(p: int) -> spec_fn(TodoModel) -> bool {
    |m: TodoModel| pri(m) == p
}

/// Inserts `m` into the already-ranked `ms`, after every record whose
/// score is at most `pri(m)` — the placement that keeps ties in arrival
/// order.
pub open spec fn insert_ranked(m: TodoModel, ms: Seq<TodoModel>) -> Seq<TodoModel>
    decreases ms.len(),
{
    if ms.len() == 0 {
        seq![m]
    } else if pri(ms.last()) <= pri(m) {
        ms.push(m)
    } else {
        insert_ranked(m, ms.drop_last()).push(ms.last())
    }
}

/// The ranked order of `ms`: each record in turn inserted after its equals.
pub open spec fn rank_models(ms: Seq<TodoModel>) -> Seq<TodoModel>
    decreases ms.len(),
{
    if ms.len() == 0 {
        Seq::empty()
    } else {
        insert_ranked(ms.last(), rank_models(ms.drop_last()))
    }
}

proof fn lemma_filter_empty(pred: spec_fn(TodoModel) -> bool)
    ensures
        Seq::<TodoModel>::empty().filter(pred) == Seq::<TodoModel>::empty(),
{
    reveal(Seq::filter);
}

proof fn lemma_filter_push(s: Seq<TodoModel>, x: TodoModel, pred: spec_fn(TodoModel) -> bool)
    ensures
        (s.push(x)).filter(pred) == if pred(x) {
            s.filter(pred).push(x)
        } else {
            s.filter(pred)
        },
{
    reveal(Seq::filter);
    assert(s.push(x).drop_last() =~= s);
    assert(s.push(x).last() == x);
    assert(s.push(x).len() == s.len() + 1);
}

proof fn lemma_insert_ranked_basic(m: TodoModel, ms: Seq<TodoModel>)
    requires
        sorted_by_priority(ms),
    ensures
        insert_ranked(m, ms).len() == ms.len() + 1,
        sorted_by_priority(insert_ranked(m, ms)),
        insert_ranked(m, ms).to_multiset() == ms.to_multiset().insert(m),
    decreases ms.len(),
{
    if ms.len() == 0 {
        assert(seq![m] =~= Seq::<TodoModel>::empty().push(m));
        assert(insert_ranked(m, ms).to_multiset() =~= ms.to_multiset().insert(m));
    } else if pri(ms.last()) <= pri(m) {
        assert(insert_ranked(m, ms).to_multiset() =~= ms.to_multiset().insert(m));
    } else {
        let dl = ms.drop_last();
        assert(sorted_by_priority(dl)) by {
            assert forall|a: int, b: int| 0 <= a <= b < dl.len() implies pri(#[trigger] dl[a])
                <= pri(#[trigger] dl[b]) by {
                assert(dl[a] == ms[a]);
                assert(dl[b] == ms[b]);
            }
        }
        lemma_insert_ranked_basic(m, dl);
        let inner = insert_ranked(m, dl);
        assert forall|a: int| 0 <= a < inner.len() implies pri(#[trigger] inner[a]) <= pri(
            ms.last(),
        ) by {
            assert(inner.contains(inner[a]));
            assert(inner.to_multiset().count(inner[a]) > 0);
            if inner[a] != m {
                assert(dl.to_multiset().count(inner[a]) > 0);
                assert(dl.contains(inner[a]));
                let b = choose|b: int| 0 <= b < dl.len() && dl[b] == inner[a];
                assert(dl[b] == ms[b]);
                assert(pri(ms[b]) <= pri(ms.last()));
            }
        }
        assert(ms =~= dl.push(ms.last()));
        assert(insert_ranked(m, ms).to_multiset() =~= ms.to_multiset().insert(m));
    }
}

proof fn lemma_insert_ranked_filter(m: TodoModel, ms: Seq<TodoModel>, p: int)
    ensures
        insert_ranked(m, ms).filter(same_pri(p)) == if pri(m) == p {
            ms.filter(same_pri(p)).push(m)
        } else {
            ms.filter(same_pri(p))
        },
    decreases ms.len(),
{
    let pred = same_pri(p);
    if ms.len() == 0 {
        lemma_filter_empty(pred);
        assert(seq![m] =~= Seq::<TodoModel>::empty().push(m));
        lemma_filter_push(Seq::empty(), m, pred);
    } else if pri(ms.last()) <= pri(m) {
        lemma_filter_push(ms, m, pred);
    } else {
        let dl = ms.drop_last();
        lemma_insert_ranked_filter(m, dl, p);
        let inner = insert_ranked(m, dl);
        lemma_filter_push(inner, ms.last(), pred);
        lemma_filter_push(dl, ms.last(), pred);
        assert(ms =~= dl.push(ms.last()));
    }
}

/// The ranked output is a permutation of the input, ascending by score.
/// With two records at hand, this is the monotonic-order law: wherever
/// record `a` comes before record `b` in the ranked output, the score of
/// `a` is at most the score of `b`.
pub proof fn lemma_rank_monotonic(ms: Seq<TodoModel>)
    ensures
        sorted_by_priority(rank_models(ms)),
        rank_models(ms).len() == ms.len(),
        rank_models(ms).to_multiset() == ms.to_multiset(),
    decreases ms.len(),
{
    if ms.len() == 0 {
    } else {
        let dl = ms.drop_last();
        lemma_rank_monotonic(dl);
        lemma_insert_ranked_basic(ms.last(), rank_models(dl));
        assert(ms =~= dl.push(ms.last()));
    }
}

/// The stability law: among records of any one score `p`, ranking keeps
/// the input order — filtering the ranked output down to score `p` gives
/// exactly the same sequence as filtering the input.
pub proof fn lemma_rank_stable(ms: Seq<TodoModel>, p: int)
    ensures
        rank_models(ms).filter(same_pri(p)) == ms.filter(same_pri(p)),
    decreases ms.len(),
{
    if ms.len() == 0 {
    } else {
        let dl = ms.drop_last();
        lemma_rank_stable(dl, p);
        lemma_insert_ranked_filter(ms.last(), rank_models(dl), p);
        lemma_filter_push(dl, ms.last(), same_pri(p));
        assert(ms =~= dl.push(ms.last()));
    }
}

proof fn lemma_insert_position(m: TodoModel, ms: Seq<TodoModel>, p: int)
    requires
        sorted_by_priority(ms),
        0 <= p <= ms.len(),
        forall|b: int| p <= b < ms.len() ==> pri(#[trigger] ms[b]) > pri(m),
        p > 0 ==> pri(ms[p - 1]) <= pri(m),
    ensures
        insert_ranked(m, ms) == ms.insert(p, m),
    decreases ms.len(),
{
    if ms.len() == 0 {
        assert(seq![m] =~= ms.insert(0, m));
    } else if pri(ms.last()) <= pri(m) {
        assert(p == ms.len());
        assert(ms.push(m) =~= ms.insert(p, m));
    } else {
        let dl = ms.drop_last();
        assert(p < ms.len());
        assert(sorted_by_priority(dl)) by {
            assert forall|a: int, b: int| 0 <= a <= b < dl.len() implies pri(#[trigger] dl[a])
                <= pri(#[trigger] dl[b]) by {
                assert(dl[a] == ms[a]);
                assert(dl[b] == ms[b]);
            }
        }
        assert forall|b: int| p <= b < dl.len() implies pri(#[trigger] dl[b]) > pri(m) by {
            assert(dl[b] == ms[b]);
        }
        if p > 0 {
            assert(dl[p - 1] == ms[p - 1]);
        }
        lemma_insert_position(m, dl, p);
        assert(dl.insert(p, m).push(ms.last()) =~= ms.insert(p, m));
    }
}

/// Sorts the records ascending by the urgency score of their messages, so
/// the most urgent record ends up last; records of equal score keep their
/// relative order.
#[verifier::loop_isolation(false)]
pub fn sort_todos_by_priority(todos: &mut Vec<Todo>)
    ensures
        models_of(final(todos)@) == rank_models(models_of(old(todos)@)),
        final(todos)@.to_multiset() == old(todos)@.to_multiset(),
{
    let ghost orig: Seq<Todo> = todos@;
    let mut out: Vec<Todo> = Vec::new();
    let ghost mut done: Seq<Todo> = Seq::empty();
    proof {
        assert(models_of(done) =~= Seq::<TodoModel>::empty());
        assert(orig =~= done + todos@);
    }
    while todos.len() > 0
        invariant
            orig == done + todos@,
            sorted_by_priority(models_of(out@)),
            models_of(out@) == rank_models(models_of(done)),
            out@.to_multiset() == done.to_multiset(),
        decreases todos@.len(),
    {
        let ghost before = todos@;
        let x = todos.remove(0);
        proof {
            assert(orig =~= done.push(x) + todos@);
        }
        let key = measure_priority(x.message.as_str());
        let mut p = out.len();
        while p > 0 && measure_priority(out[p - 1].message.as_str()) > key
            invariant
                p <= out@.len(),
                forall|b: int|
                    p <= b < out@.len() ==> pri(#[trigger] models_of(out@)[b]) > key as int,
            decreases p,
        {
            p = p - 1;
        }
        proof {
            lemma_insert_position(x@, models_of(out@), p as int);
            lemma_insert_ranked_basic(x@, models_of(out@));
            assert(models_of(out@.insert(p as int, x)) =~= models_of(out@).insert(p as int, x@));
            assert(models_of(done.push(x)) =~= models_of(done).push(x@));
            assert(models_of(done.push(x)).drop_last() =~= models_of(done));
        }
        out.insert(p, x);
        proof {
            done = done.push(x);
        }
    }
    proof {
        assert(done =~= orig);
    }
    *todos = out;
}

} // verus!
