//! Ordering the records from the oldest commit to the newest.

use vstd::prelude::*;
use vstd::multiset::Multiset;
use vstd::seq_lib::{to_multiset_build, to_multiset_len};
use crate::file_info::{views, FileInfo, FileInfoView};

verus! {

/// No record comes before one with an earlier commit time.
pub open spec fn is_ordered(records: Seq<FileInfoView>) -> bool {
    forall|i: int, j: int|
        0 <= i <= j < records.len() ==> records[i].commit_time <= records[j].commit_time
}

/// The records of `records` whose commit time is `time`, in their order.
pub open spec fn with_time(records: Seq<FileInfoView>, time: i64) -> Seq<FileInfoView>
    decreases records.len(),
{
    if records.len() == 0 {
        Seq::empty()
    } else if records.last().commit_time == time {
        with_time(records.drop_last(), time).push(records.last())
    } else {
        with_time(records.drop_last(), time)
    }
}

/// Records with the same commit time stand in `sorted` in the order in which
/// they stand in `records`, and `sorted` holds no others.
pub open spec fn keeps_order_of_equals(
    sorted: Seq<FileInfoView>,
    records: Seq<FileInfoView>,
) -> bool {
    forall|time: i64| #[trigger] with_time(sorted, time) == with_time(records, time)
}

/// `sorted` is `records` put in the order of their commit times, oldest first,
/// where records with the same commit time keep their order. There is one such
/// sequence for each `records`.
pub open spec fn is_stable_sort_of(sorted: Seq<FileInfoView>, records: Seq<FileInfoView>) -> bool {
    &&& sorted.len() == records.len()
    &&& is_ordered(sorted)
    &&& keeps_order_of_equals(sorted, records)
}

/// The records with a given commit time in two sequences joined are those of
/// the first followed by those of the second.
pub proof fn lemma_with_time_add(a: Seq<FileInfoView>, b: Seq<FileInfoView>, time: i64)
    ensures
        with_time(a + b, time) == with_time(a, time) + with_time(b, time),
    decreases b.len(),
{
    if b.len() > 0 {
        lemma_with_time_add(a, b.drop_last(), time);
        assert((a + b).drop_last() == a + b.drop_last());
    }
}

/// Where no record has the commit time asked for, none is found.
pub proof fn lemma_with_time_absent(records: Seq<FileInfoView>, time: i64)
    requires
        forall|i: int| 0 <= i < records.len() ==> records[i].commit_time != time,
    ensures
        with_time(records, time) == Seq::<FileInfoView>::empty(),
    decreases records.len(),
{
    if records.len() > 0 {
        lemma_with_time_absent(records.drop_last(), time);
    }
}

/// The records with a given commit time in a sequence of one.
proof fn lemma_with_time_one(record: FileInfoView, time: i64)
    ensures
        with_time(seq![record], time) == if record.commit_time == time {
            seq![record]
        } else {
            Seq::empty()
        },
{
    let one = seq![record];
    assert(with_time(one.drop_last(), time) == Seq::<FileInfoView>::empty());
}

/// Two ordered sequences of the same length that hold the same records for
/// every commit time, in the same order, are the same sequence.
proof fn lemma_same_order(first: Seq<FileInfoView>, second: Seq<FileInfoView>)
    requires
        first.len() == second.len(),
        is_ordered(first),
        is_ordered(second),
        keeps_order_of_equals(first, second),
    ensures
        first == second,
    decreases first.len(),
{
    if first.len() > 0 {
        let last = first.len() - 1;
        let time = first[last].commit_time;
        let other = second[last].commit_time;
        assert(with_time(first, other) == with_time(second, other));
        if forall|j: int| 0 <= j < second.len() ==> second[j].commit_time != time {
            lemma_with_time_absent(second, time);
        }
        if forall|j: int| 0 <= j < first.len() ==> first[j].commit_time != other {
            lemma_with_time_absent(first, other);
        }
        assert(with_time(first, time).last() == first.last());
        assert forall|at: i64| #[trigger]
            with_time(first.drop_last(), at) == with_time(second.drop_last(), at) by {
            assert(with_time(first, at) == with_time(second, at));
            if at == time {
                assert(with_time(first.drop_last(), at) == with_time(first, at).drop_last());
            }
        }
        lemma_same_order(first.drop_last(), second.drop_last());
        assert(first == first.drop_last().push(first.last()));
    }
}

/// Records can be put in order in one way only, if those with the same commit
/// time are to keep their order.
pub proof fn lemma_stable_sort_is_unique(
    first: Seq<FileInfoView>,
    second: Seq<FileInfoView>,
    records: Seq<FileInfoView>,
)
    requires
        is_stable_sort_of(first, records),
        is_stable_sort_of(second, records),
    ensures
        first == second,
{
    lemma_same_order(first, second);
}

/// Merges two ordered runs into one. Between records with the same commit
/// time, those of `a` come first.
fn merge(a: Vec<FileInfo>, b: Vec<FileInfo>) -> (merged: Vec<FileInfo>)
    requires
        is_ordered(views(a@)),
        is_ordered(views(b@)),
    ensures
        merged.len() == a.len() + b.len(),
        is_ordered(views(merged@)),
        forall|time: i64| #[trigger]
            with_time(views(merged@), time) == with_time(views(a@), time) + with_time(
                views(b@),
                time,
            ),
        merged@.to_multiset() == a@.to_multiset().add(b@.to_multiset()),
{
    broadcast use vstd::multiset::group_multiset_axioms;

    let ghost a0 = a@;
    let ghost b0 = b@;
    let mut a = a;
    let mut b = b;
    // The records taken so far, the newest first.
    let mut taken: Vec<FileInfo> = Vec::new();
    // The same records, the oldest first: the end of the merged run.
    let ghost mut tail: Seq<FileInfo> = Seq::empty();
    proof {
        to_multiset_len(taken@);
    }
    while a.len() > 0 || b.len() > 0
        invariant
            is_ordered(views(a0)),
            is_ordered(views(b0)),
            a.len() <= a0.len(),
            b.len() <= b0.len(),
            a@ == a0.take(a.len() as int),
            b@ == b0.take(b.len() as int),
            taken.len() == tail.len(),
            tail.len() == (a0.len() - a.len()) + (b0.len() - b.len()),
            forall|i: int| 0 <= i < tail.len() ==> taken@[i] == tail[tail.len() - 1 - i],
            is_ordered(views(tail)),
            forall|i: int, j: int|
                0 <= i < a.len() && 0 <= j < tail.len() ==> a0[i].commit_time
                    <= tail[j].commit_time,
            forall|i: int, j: int|
                0 <= i < b.len() && 0 <= j < tail.len() ==> b0[i].commit_time
                    <= tail[j].commit_time,
            forall|i: int, j: int|
                0 <= i < b.len() && a.len() <= j < a0.len() ==> b0[i].commit_time
                    < a0[j].commit_time,
            forall|time: i64| #[trigger]
                with_time(views(tail), time) == with_time(views(a0.skip(a.len() as int)), time)
                    + with_time(views(b0.skip(b.len() as int)), time),
            taken@.to_multiset().add(a@.to_multiset()).add(b@.to_multiset())
                == a0.to_multiset().add(b0.to_multiset()),
        decreases a.len() + b.len(),
    {
        let ghost a_len = a.len() as int;
        let ghost b_len = b.len() as int;
        let ghost a_before = a@;
        let ghost b_before = b@;
        let ghost taken_before = taken@;
        let ghost tail_before = tail;
        let from_a = b.len() == 0 || (a.len() > 0 && a[a.len() - 1].commit_time > b[b.len()
            - 1].commit_time);
        if from_a {
            let record = a.pop().unwrap();
            taken.push(record);
            proof {
                tail = seq![record] + tail_before;
                assert(a_before == a@.push(record));
                to_multiset_build(a@, record);
                to_multiset_build(taken_before, record);
                assert(a0.skip(a_len - 1) == seq![record] + a0.skip(a_len));
                assert(views(seq![record] + a0.skip(a_len)) == seq![record@] + views(
                    a0.skip(a_len),
                ));
                assert(views(tail) == seq![record@] + views(tail_before));
                assert forall|i: int, j: int|
                    0 <= i < a.len() && 0 <= j < tail.len() implies a0[i].commit_time
                    <= tail[j].commit_time by {
                    assert(views(a0)[i].commit_time <= views(a0)[a_len - 1].commit_time);
                }
                assert forall|i: int| 0 <= i < b.len() implies b0[i].commit_time
                    < record.commit_time by {
                    assert(views(b0)[i].commit_time <= views(b0)[b_len - 1].commit_time);
                }
                assert forall|time: i64| #[trigger]
                    with_time(views(tail), time) == with_time(
                        views(a0.skip(a.len() as int)),
                        time,
                    ) + with_time(views(b0.skip(b.len() as int)), time) by {
                    lemma_with_time_add(seq![record@], views(tail_before), time);
                    lemma_with_time_add(seq![record@], views(a0.skip(a_len)), time);
                }
            }
        } else {
            let record = b.pop().unwrap();
            taken.push(record);
            proof {
                tail = seq![record] + tail_before;
                assert(b_before == b@.push(record));
                to_multiset_build(b@, record);
                to_multiset_build(taken_before, record);
                assert(b0.skip(b_len - 1) == seq![record] + b0.skip(b_len));
                assert(views(seq![record] + b0.skip(b_len)) == seq![record@] + views(
                    b0.skip(b_len),
                ));
                assert(views(tail) == seq![record@] + views(tail_before));
                assert forall|i: int| 0 <= i < a.len() implies a0[i].commit_time
                    <= record.commit_time by {
                    assert(views(a0)[i].commit_time <= views(a0)[a_len - 1].commit_time);
                }
                assert forall|i: int, j: int|
                    0 <= i < b.len() && 0 <= j < tail.len() implies b0[i].commit_time
                    <= tail[j].commit_time by {
                    assert(views(b0)[i].commit_time <= views(b0)[b_len - 1].commit_time);
                }
                assert forall|time: i64| #[trigger]
                    with_time(views(tail), time) == with_time(
                        views(a0.skip(a.len() as int)),
                        time,
                    ) + with_time(views(b0.skip(b.len() as int)), time) by {
                    lemma_with_time_add(seq![record@], views(tail_before), time);
                    lemma_with_time_add(seq![record@], views(b0.skip(b_len)), time);
                    lemma_with_time_one(record@, time);
                    if record.commit_time == time {
                        // The records taken from `a` are all newer than `record`.
                        lemma_with_time_absent(views(a0.skip(a_len)), time);
                    }
                }
            }
        }
    }
    let mut merged: Vec<FileInfo> = Vec::new();
    proof {
        assert(a@ =~= Seq::<FileInfo>::empty());
        assert(b@ =~= Seq::<FileInfo>::empty());
        assert(a0.skip(0) == a0);
        assert(b0.skip(0) == b0);
    }
    while taken.len() > 0
        invariant
            taken.len() + merged.len() == tail.len(),
            merged@ == tail.take(merged.len() as int),
            forall|i: int| 0 <= i < taken.len() ==> taken@[i] == tail[tail.len() - 1 - i],
            merged@.to_multiset().add(taken@.to_multiset())
                == a0.to_multiset().add(b0.to_multiset()),
        decreases taken.len(),
    {
        let ghost taken_before = taken@;
        let ghost merged_before = merged@;
        let record = taken.pop().unwrap();
        merged.push(record);
        proof {
            assert(taken_before == taken@.push(record));
            to_multiset_build(taken@, record);
            to_multiset_build(merged_before, record);
        }
    }
    proof {
        assert(merged@ == tail);
        to_multiset_len(taken@);
    }
    merged
}

/// The records in the order of their commit times, oldest first. Records
/// with the same commit time keep the order in which they came.
pub fn sorted_by_commit_time(infos: Vec<FileInfo>) -> (sorted: Vec<FileInfo>)
    ensures
        is_stable_sort_of(views(sorted@), views(infos@)),
        sorted@.to_multiset() == infos@.to_multiset(),
    decreases infos.len(),
{
    if infos.len() <= 1 {
        return infos;
    }
    let mut left = infos;
    let middle: usize = left.len() / 2;
    let right = left.split_off(middle);
    let ghost first = left@;
    let ghost second = right@;
    let left = sorted_by_commit_time(left);
    let right = sorted_by_commit_time(right);
    let sorted = merge(left, right);
    proof {
        assert(infos@ == first + second);
        assert(views(infos@) == views(first) + views(second));
        vstd::seq_lib::lemma_multiset_commutative(first, second);
        assert forall|time: i64| #[trigger]
            with_time(views(sorted@), time) == with_time(views(infos@), time) by {
            lemma_with_time_add(views(first), views(second), time);
        }
    }
    sorted
}

} // verus!
