use vstd::prelude::*;

use crate::collection::ObservableCollection;
use crate::event::{Event, Subscription};
use crate::vec_diff::{apply_diff, apply_diffs, diff_fits, diffs_fit, lemma_apply_diffs_push, VecDiff};

verus! {

/// The concatenation, in order, of the sequences in `ss`.
pub open spec fn flatten<T>(ss: Seq<Seq<T>>) -> Seq<T>
    decreases ss.len(),
{
    if ss.len() == 0 {
        Seq::empty()
    } else {
        flatten(ss.drop_last()) + ss.last()
    }
}

/// The sum of the lengths of the sequences in `ss`.
pub open spec fn total_len<T>(ss: Seq<Seq<T>>) -> nat
    decreases ss.len(),
{
    if ss.len() == 0 {
        0
    } else {
        total_len(ss.drop_last()) + ss.last().len()
    }
}

/// Where the `k`-th sequence of `ss` starts in `flatten(ss)`.
pub open spec fn offset<T>(ss: Seq<Seq<T>>, k: int) -> nat {
    flatten(ss.take(k)).len()
}

/// The flattened length is the sum of the lengths.
pub proof fn lemma_flatten_len<T>(ss: Seq<Seq<T>>)
    ensures
        flatten(ss).len() == total_len(ss),
    decreases ss.len(),
{
    if ss.len() > 0 {
        lemma_flatten_len(ss.drop_last());
    }
}

/// Every position of `flatten(ss)` lies in the span of exactly one of the
/// sequences, and holds that sequence's element at the relative position.
pub proof fn lemma_flatten_index<T>(ss: Seq<Seq<T>>, i: int)
    requires
        0 <= i < flatten(ss).len(),
    ensures
        exists|k: int|
            0 <= k < ss.len() && offset(ss, k) <= i < offset(ss, k) + ss[k].len()
                && flatten(ss)[i] == ss[k][i - offset(ss, k)],
    decreases ss.len(),
{
    let n = ss.len() as int;
    let init = ss.drop_last();
    if i < flatten(init).len() {
        lemma_flatten_index(init, i);
        let k = choose|k: int|
            0 <= k < init.len() && offset(init, k) <= i < offset(init, k) + init[k].len()
                && flatten(init)[i] == init[k][i - offset(init, k)];
        assert(ss.take(k) =~= init.take(k));
        assert(flatten(ss)[i] == flatten(init)[i]);
    } else {
        assert(ss.take(n - 1) =~= init);
        assert(offset(ss, n - 1) == flatten(init).len());
        assert(flatten(ss)[i] == ss[n - 1][i - offset(ss, n - 1)]);
    }
}

/// Stable identity of one sub-collection of a flat map. It stays valid while
/// the sub-collection is present, whatever happens to its siblings.
#[derive(Clone, Copy, PartialEq, Eq, Structural, Debug)]
pub struct SubCollectionKey {
    id: u64,
}

impl SubCollectionKey {
    pub closed spec fn id_spec(&self) -> u64 {
        self.id
    }
}

/// Bookkeeping of one sub-collection: where its span starts in the flattened
/// list, how long it is, and the identity its own changes arrive under.
#[derive(Clone, Copy)]
struct SubCollectionData {
    pos: usize,
    size: usize,
    key: u64,
}

spec fn span_end(d: SubCollectionData) -> int {
    d.pos + d.size
}

/// The spans of `data` follow each other without gap from 0 to `len`.
spec fn chained(data: Seq<SubCollectionData>, len: nat) -> bool {
    &&& data.len() == 0 ==> len == 0
    &&& data.len() > 0 ==> data[0].pos == 0 && span_end(data.last()) == len
    &&& forall|i: int, j: int|
        #![trigger data[i], data[j]]
        0 <= i && j == i + 1 && j < data.len() ==> data[j].pos == span_end(data[i])
}

/// The contents of each sub-collection, read off the flattened list.
spec fn spans_of<T>(items: Seq<T>, data: Seq<SubCollectionData>) -> Seq<Seq<T>> {
    Seq::new(data.len(), |k: int| items.subrange(data[k].pos as int, span_end(data[k])))
}

/// Start of the span of slot `k`, or `len` past the last slot.
spec fn start_of(data: Seq<SubCollectionData>, len: nat, k: int) -> int {
    if k < data.len() {
        data[k].pos as int
    } else {
        len as int
    }
}

proof fn lemma_layout<T>(items: Seq<T>, data: Seq<SubCollectionData>)
    requires
        chained(data, items.len()),
    ensures
        forall|i: int, j: int|
            0 <= i < j < data.len() ==> span_end(data[i]) <= data[j].pos,
        forall|i: int| 0 <= i < data.len() ==> span_end(data[i]) <= items.len(),
        forall|k: int|
            0 <= k <= data.len() ==> offset(spans_of(items, data), k) == start_of(
                data,
                items.len(),
                k,
            ),
        flatten(spans_of(items, data)) == items,
    decreases data.len(),
{
    let n = data.len() as int;
    let ss = spans_of(items, data);
    if n == 0 {
        assert(items =~= Seq::<T>::empty());
        assert(ss.take(0) =~= Seq::<Seq<T>>::empty());
    } else {
        let last = data[n - 1];
        let init_data = data.drop_last();
        let init_items = items.take(last.pos as int);
        if n > 1 {
            assert(init_data[n - 2] == data[n - 2]);
        }
        assert(chained(init_data, init_items.len()));
        lemma_layout(init_items, init_data);
        let init_ss = spans_of(init_items, init_data);
        assert(forall|i: int| 0 <= i < n - 1 ==> #[trigger] data[i] == init_data[i]);
        assert forall|i: int| 0 <= i < n - 1 implies span_end(data[i]) <= last.pos by {
            if i < n - 2 {
                assert(span_end(init_data[i]) <= init_data[n - 2].pos);
            }
        }
        assert forall|i: int| 0 <= i < n - 1 implies #[trigger] ss[i] == init_ss[i] by {
            assert(ss[i] =~= init_ss[i]);
        }
        assert(ss.drop_last() =~= init_ss);
        assert(flatten(ss) =~= items);
        assert forall|k: int| 0 <= k <= n implies offset(ss, k) == start_of(
            data,
            items.len(),
            k,
        ) by {
            if k < n {
                assert(ss.take(k) =~= init_ss.take(k));
                assert(offset(init_ss, k) == start_of(init_data, init_items.len(), k));
                assert(init_items.len() == last.pos);
                if k < n - 1 {
                    assert(init_data[k] == data[k]);
                }
            } else {
                assert(ss.take(k) =~= ss);
            }
        }
    }
}

/// The identities of the slots are distinct and below `next_key`.
spec fn keys_fresh(data: Seq<SubCollectionData>, next_key: u64) -> bool {
    &&& forall|i: int, j: int| 0 <= i < j < data.len() ==> data[i].key != data[j].key
    &&& forall|i: int| 0 <= i < data.len() ==> data[i].key < next_key
}

proof fn lemma_keys_kept(data: Seq<SubCollectionData>, new_data: Seq<SubCollectionData>, next_key: u64)
    requires
        keys_fresh(data, next_key),
        new_data.len() == data.len(),
        forall|j: int| 0 <= j < data.len() ==> new_data[j].key == data[j].key,
    ensures
        keys_fresh(new_data, next_key),
{
    assert forall|i: int, j: int| 0 <= i < j < new_data.len() implies new_data[i].key != new_data[j].key by {
        assert(data[i].key != data[j].key);
    }
    assert forall|i: int| 0 <= i < new_data.len() implies new_data[i].key < next_key by {
        assert(data[i].key < next_key);
    }
}

proof fn lemma_keys_inserted(
    data: Seq<SubCollectionData>,
    new_data: Seq<SubCollectionData>,
    index: int,
    key: u64,
    next_key: u64,
)
    requires
        keys_fresh(data, key),
        key < next_key,
        0 <= index <= data.len(),
        new_data.len() == data.len() + 1,
        new_data[index].key == key,
        forall|j: int| 0 <= j < index ==> new_data[j].key == data[j].key,
        forall|j: int| index < j < new_data.len() ==> new_data[j].key == data[j - 1].key,
    ensures
        keys_fresh(new_data, next_key),
{
    assert forall|i: int, j: int| 0 <= i < j < new_data.len() implies new_data[i].key
        != new_data[j].key by {
        if i < index && j > index {
            assert(data[i].key != data[j - 1].key);
        } else if i < index && j < index {
            assert(data[i].key != data[j].key);
        } else if i > index {
            assert(data[i - 1].key != data[j - 1].key);
        } else if i == index {
            assert(data[j - 1].key < key);
        } else {
            assert(data[i].key < key);
        }
    }
    assert forall|i: int| 0 <= i < new_data.len() implies new_data[i].key < next_key by {
        if i < index {
            assert(data[i].key < key);
        } else if i > index {
            assert(data[i - 1].key < key);
        }
    }
}

proof fn lemma_keys_removed(
    data: Seq<SubCollectionData>,
    new_data: Seq<SubCollectionData>,
    index: int,
    next_key: u64,
)
    requires
        keys_fresh(data, next_key),
        0 <= index < data.len(),
        new_data.len() + 1 == data.len(),
        forall|j: int| 0 <= j < index ==> new_data[j].key == data[j].key,
        forall|j: int| index <= j < new_data.len() ==> new_data[j].key == data[j + 1].key,
    ensures
        keys_fresh(new_data, next_key),
{
    assert forall|i: int, j: int| 0 <= i < j < new_data.len() implies new_data[i].key
        != new_data[j].key by {
        if j < index {
            assert(data[i].key != data[j].key);
        } else if i < index {
            assert(data[i].key != data[j + 1].key);
        } else {
            assert(data[i + 1].key != data[j + 1].key);
        }
    }
    assert forall|i: int| 0 <= i < new_data.len() implies new_data[i].key < next_key by {
        if i < index {
            assert(data[i].key < next_key);
        } else {
            assert(data[i + 1].key < next_key);
        }
    }
}

/// Where slot `k` starts and ends, in the flattened list and in the model.
proof fn lemma_slot<T>(items: Seq<T>, data: Seq<SubCollectionData>, k: int)
    requires
        chained(data, items.len()),
        0 <= k < data.len(),
    ensures
        forall|j: int| 0 <= j < data.len() ==> span_end(data[j]) <= items.len(),
        forall|j: int| k < j < data.len() ==> span_end(data[k]) <= data[j].pos,
        offset(spans_of(items, data), k) == data[k].pos,
        spans_of(items, data)[k].len() == data[k].size,
{
    lemma_layout(items, data);
    assert(offset(spans_of(items, data), k) == start_of(data, items.len(), k));
}

/// Inserting into the list inside the span `start .. end` inserts into that span.
proof fn lemma_insert_in_span<T>(items: Seq<T>, start: int, end: int, index: int, value: T)
    requires
        0 <= start <= start + index <= end <= items.len(),
    ensures
        items.insert(start + index, value) == items.subrange(0, start) + items.subrange(
            start,
            end,
        ).insert(index, value) + items.subrange(end, items.len() as int),
{
    assert(items.insert(start + index, value) =~= items.subrange(0, start) + items.subrange(
        start,
        end,
    ).insert(index, value) + items.subrange(end, items.len() as int));
}

/// Removing from the list inside the span `start .. end` removes from that span.
proof fn lemma_remove_in_span<T>(items: Seq<T>, start: int, end: int, index: int)
    requires
        0 <= start <= start + index < end <= items.len(),
    ensures
        items.remove(start + index) == items.subrange(0, start) + items.subrange(start, end).remove(
            index,
        ) + items.subrange(end, items.len() as int),
{
    assert(items.remove(start + index) =~= items.subrange(0, start) + items.subrange(
        start,
        end,
    ).remove(index) + items.subrange(end, items.len() as int));
}

/// Replacing the contents of slot `k` by `c`, and moving the later spans by
/// the change in length, replaces that one sub-collection and no other.
proof fn lemma_replace_span<T>(
    items: Seq<T>,
    data: Seq<SubCollectionData>,
    k: int,
    c: Seq<T>,
    new_items: Seq<T>,
    new_data: Seq<SubCollectionData>,
)
    requires
        chained(data, items.len()),
        0 <= k < data.len(),
        new_items == items.subrange(0, data[k].pos as int) + c + items.subrange(
            span_end(data[k]),
            items.len() as int,
        ),
        new_data.len() == data.len(),
        new_data[k].pos == data[k].pos,
        new_data[k].size == c.len(),
        forall|j: int|
            0 <= j < k ==> new_data[j].pos == data[j].pos && new_data[j].size == data[j].size,
        forall|j: int|
            k < j < data.len() ==> new_data[j].pos == data[j].pos + c.len() - data[k].size
                && new_data[j].size == data[j].size,
    ensures
        chained(new_data, new_items.len()),
        spans_of(new_items, new_data) == spans_of(items, data).update(k, c),
{
    lemma_layout(items, data);
    let n = data.len() as int;
    assert forall|i: int, j: int|
        #![trigger new_data[i], new_data[j]]
        0 <= i && j == i + 1 && j < n implies new_data[j].pos == span_end(new_data[i]) by {
        assert(data[j].pos == span_end(data[i]));
    }
    let expected = spans_of(items, data).update(k, c);
    assert forall|j: int| 0 <= j < n implies #[trigger] spans_of(new_items, new_data)[j]
        == expected[j] by {
        if j < k {
            assert(span_end(data[j]) <= data[k].pos);
        } else if j > k {
            assert(span_end(data[k]) <= data[j].pos);
        }
        assert(spans_of(new_items, new_data)[j] =~= expected[j]);
    }
    assert(spans_of(new_items, new_data) =~= expected);
}

/// Inserting a slot holding `c` at `index`, and moving the later spans right
/// by its length, inserts that sub-collection and changes no other.
#[verifier::rlimit(40)]
proof fn lemma_insert_slot<T>(
    items: Seq<T>,
    data: Seq<SubCollectionData>,
    index: int,
    c: Seq<T>,
    new_items: Seq<T>,
    new_data: Seq<SubCollectionData>,
)
    requires
        chained(data, items.len()),
        0 <= index <= data.len(),
        new_items == items.subrange(0, start_of(data, items.len(), index)) + c + items.subrange(
            start_of(data, items.len(), index),
            items.len() as int,
        ),
        new_data.len() == data.len() + 1,
        new_data[index].pos == start_of(data, items.len(), index),
        new_data[index].size == c.len(),
        forall|j: int|
            0 <= j < index ==> new_data[j].pos == data[j].pos && new_data[j].size == data[j].size,
        forall|j: int|
            index < j < new_data.len() ==> new_data[j].pos == data[j - 1].pos + c.len()
                && new_data[j].size == data[j - 1].size,
    ensures
        chained(new_data, new_items.len()),
        spans_of(new_items, new_data) == spans_of(items, data).insert(index, c),
{
    lemma_layout(items, data);
    let n = data.len() as int;
    let s = start_of(data, items.len(), index);
    if index < n {
        assert(data[index].pos == s);
    }
    if index > 0 {
        assert(span_end(data[index - 1]) == s) by {
            if index < n {
                assert(data[index].pos == span_end(data[index - 1]));
            }
        }
    }
    assert forall|i: int, j: int|
        #![trigger new_data[i], new_data[j]]
        0 <= i && j == i + 1 && j < n + 1 implies new_data[j].pos == span_end(new_data[i]) by {
        if j < index {
            assert(data[j].pos == span_end(data[i]));
        } else if j > index + 1 {
            assert(data[j - 1].pos == span_end(data[i - 1]));
        }
    }
    if index < n {
        assert(new_data[n] == new_data[n]);
        assert(span_end(new_data[n]) == span_end(data[n - 1]) + c.len());
    }
    assert(chained(new_data, new_items.len()));
    let expected = spans_of(items, data).insert(index, c);
    assert forall|j: int| 0 <= j < n + 1 implies #[trigger] spans_of(new_items, new_data)[j]
        == expected[j] by {
        if j < index {
            assert(span_end(data[j]) <= s) by {
                if index < n {
                    assert(span_end(data[j]) <= data[index].pos);
                }
            }
        } else if j > index {
            assert(s <= data[j - 1].pos);
        }
        assert(spans_of(new_items, new_data)[j] =~= expected[j]);
    }
    assert(spans_of(new_items, new_data) =~= expected);
}

/// Removing the slot at `index` with its span, and moving the later spans left
/// by its length, removes that sub-collection and changes no other.
proof fn lemma_remove_slot<T>(
    items: Seq<T>,
    data: Seq<SubCollectionData>,
    index: int,
    new_items: Seq<T>,
    new_data: Seq<SubCollectionData>,
)
    requires
        chained(data, items.len()),
        0 <= index < data.len(),
        new_items == items.subrange(0, data[index].pos as int) + items.subrange(
            span_end(data[index]),
            items.len() as int,
        ),
        new_data.len() + 1 == data.len(),
        forall|j: int|
            0 <= j < index ==> new_data[j].pos == data[j].pos && new_data[j].size == data[j].size,
        forall|j: int|
            index <= j < new_data.len() ==> new_data[j].pos == data[j + 1].pos - data[index].size
                && new_data[j].size == data[j + 1].size,
    ensures
        chained(new_data, new_items.len()),
        spans_of(new_items, new_data) == spans_of(items, data).remove(index),
{
    lemma_layout(items, data);
    let n = data.len() as int;
    let gone = data[index];
    assert forall|i: int, j: int|
        #![trigger new_data[i], new_data[j]]
        0 <= i && j == i + 1 && j < n - 1 implies new_data[j].pos == span_end(new_data[i]) by {
        if j < index {
            assert(data[j].pos == span_end(data[i]));
        } else if j == index {
            assert(data[j + 1].pos == span_end(data[j]));
            assert(data[j].pos == span_end(data[i]));
        } else {
            assert(data[j + 1].pos == span_end(data[j]));
        }
    }
    if n > 1 {
        if index == 0 {
            assert(data[1].pos == span_end(data[0]));
        }
        if index == n - 1 {
            assert(data[n - 1].pos == span_end(data[n - 2]));
        } else {
            assert(new_data[n - 2].pos == data[n - 1].pos - gone.size);
        }
    }
    assert(chained(new_data, new_items.len()));
    let expected = spans_of(items, data).remove(index);
    assert forall|j: int| 0 <= j < n - 1 implies #[trigger] spans_of(new_items, new_data)[j]
        == expected[j] by {
        if j < index {
            assert(span_end(data[j]) <= gone.pos);
        } else {
            assert(span_end(gone) <= data[j + 1].pos);
        }
        assert(spans_of(new_items, new_data)[j] =~= expected[j]);
    }
    assert(spans_of(new_items, new_data) =~= expected);
}

/// `out` removes the span `start .. start + size`, one element at a time,
/// highest position first.
pub open spec fn removals_from_back<T>(out: Seq<VecDiff<T>>, start: nat, size: nat) -> bool {
    &&& out.len() == size
    &&& forall|j: int|
        0 <= j < size ==> out[j] == (VecDiff::<T>::RemoveAt { index: (start + size - 1 - j) as usize })
}

/// `out` inserts `values` one at a time at `start`, `start + 1`, ...
pub open spec fn insertions_from<T>(out: Seq<VecDiff<T>>, start: nat, values: Seq<T>) -> bool {
    &&& out.len() == values.len()
    &&& forall|j: int|
        0 <= j < values.len() ==> out[j] == (VecDiff::<T>::InsertAt {
            index: (start + j) as usize,
            value: values[j],
        })
}

/// What the flattened list reports when the sub-collection that starts at
/// `start` and holds `size` elements goes through the change `d`.
pub open spec fn sub_diff_output<T>(out: Seq<VecDiff<T>>, start: nat, size: nat, d: VecDiff<T>) -> bool {
    match d {
        VecDiff::Clear => removals_from_back(out, start, size),
        VecDiff::InsertAt { index, value } => out == seq![
            VecDiff::<T>::InsertAt { index: (start + index) as usize, value },
        ],
        VecDiff::RemoveAt { index } => out == seq![
            VecDiff::<T>::RemoveAt { index: (start + index) as usize },
        ],
    }
}

/// Moves the spans of the slots from `from` on by `amount`, right when `grow`
/// holds and left otherwise.
fn shift_positions(data: &mut Vec<SubCollectionData>, from: usize, amount: usize, grow: bool)
    requires
        from <= old(data)@.len(),
        grow ==> forall|k: int|
            from <= k < old(data)@.len() ==> old(data)@[k].pos + amount <= usize::MAX,
        !grow ==> forall|k: int| from <= k < old(data)@.len() ==> old(data)@[k].pos >= amount,
    ensures
        final(data)@.len() == old(data)@.len(),
        forall|k: int|
            0 <= k < old(data)@.len() ==> final(data)@[k].size == old(data)@[k].size
                && final(data)@[k].key == old(data)@[k].key,
        forall|k: int| 0 <= k < from ==> final(data)@[k].pos == old(data)@[k].pos,
        forall|k: int|
            from <= k < old(data)@.len() ==> final(data)@[k].pos == if grow {
                old(data)@[k].pos + amount
            } else {
                old(data)@[k].pos - amount
            },
{
    let mut i: usize = from;
    while i < data.len()
        invariant
            from <= i <= data@.len(),
            data@.len() == old(data)@.len(),
            grow ==> forall|k: int|
                from <= k < old(data)@.len() ==> old(data)@[k].pos + amount <= usize::MAX,
            !grow ==> forall|k: int| from <= k < old(data)@.len() ==> old(data)@[k].pos >= amount,
            forall|k: int|
                0 <= k < old(data)@.len() ==> data@[k].size == old(data)@[k].size && data@[k].key
                    == old(data)@[k].key,
            forall|k: int| 0 <= k < from ==> data@[k].pos == old(data)@[k].pos,
            forall|k: int| i <= k < old(data)@.len() ==> data@[k].pos == old(data)@[k].pos,
            forall|k: int|
                from <= k < i ==> data@[k].pos == if grow {
                    old(data)@[k].pos + amount
                } else {
                    old(data)@[k].pos - amount
                },
        decreases data@.len() - i,
    {
        let e = data[i];
        let pos = if grow {
            e.pos + amount
        } else {
            e.pos - amount
        };
        data.set(i, SubCollectionData { pos, size: e.size, key: e.key });
        i += 1;
    }
}

/// Removes `items[pos .. pos + size]`, highest position first, and returns the
/// change reported for each removal.
fn remove_span<T>(items: &mut Vec<T>, pos: usize, size: usize) -> (out: Vec<VecDiff<T>>)
    requires
        pos + size <= old(items)@.len(),
    ensures
        final(items)@ == old(items)@.subrange(0, pos as int) + old(items)@.subrange(
            pos + size,
            old(items)@.len() as int,
        ),
        removals_from_back(out@, pos as nat, size as nat),
        diffs_fit(old(items)@, out@),
        apply_diffs(old(items)@, out@) == final(items)@,
{
    let mut out: Vec<VecDiff<T>> = Vec::new();
    let len = items.len();
    assert(pos + size <= len);
    let mut i: usize = pos + size;
    assert(old(items)@ =~= old(items)@.subrange(0, i as int) + old(items)@.subrange(
        pos + size,
        old(items)@.len() as int,
    ));
    while i > pos
        invariant
            pos <= i <= pos + size,
            pos + size <= old(items)@.len(),
            items@ == old(items)@.subrange(0, i as int) + old(items)@.subrange(
                pos + size,
                old(items)@.len() as int,
            ),
            out@.len() == pos + size - i,
            forall|j: int|
                0 <= j < out@.len() ==> out@[j] == (VecDiff::<T>::RemoveAt {
                    index: (pos + size - 1 - j) as usize,
                }),
            diffs_fit(old(items)@, out@),
            apply_diffs(old(items)@, out@) == items@,
        decreases i,
    {
        i -= 1;
        let ghost before = items@;
        let ghost out_before = out@;
        items.remove(i);
        let d = VecDiff::RemoveAt { index: i };
        out.push(d);
        proof {
            lemma_apply_diffs_push(old(items)@, out_before, d);
            assert(items@ =~= old(items)@.subrange(0, i as int) + old(items)@.subrange(
                pos + size,
                old(items)@.len() as int,
            ));
        }
    }
    out
}

/// Inserts `values` at `pos`, first value first, and returns the change
/// reported for each insertion.
fn insert_span<T: Copy>(items: &mut Vec<T>, pos: usize, values: &Vec<T>) -> (out: Vec<VecDiff<T>>)
    requires
        pos <= old(items)@.len(),
    ensures
        final(items)@ == old(items)@.subrange(0, pos as int) + values@ + old(items)@.subrange(
            pos as int,
            old(items)@.len() as int,
        ),
        insertions_from(out@, pos as nat, values@),
        diffs_fit(old(items)@, out@),
        apply_diffs(old(items)@, out@) == final(items)@,
{
    let mut out: Vec<VecDiff<T>> = Vec::new();
    let mut j: usize = 0;
    assert(old(items)@ =~= old(items)@.subrange(0, pos as int) + values@.take(0)
        + old(items)@.subrange(pos as int, old(items)@.len() as int));
    while j < values.len()
        invariant
            j <= values@.len(),
            pos <= old(items)@.len(),
            items@ == old(items)@.subrange(0, pos as int) + values@.take(j as int)
                + old(items)@.subrange(pos as int, old(items)@.len() as int),
            out@.len() == j,
            forall|i: int|
                0 <= i < j ==> out@[i] == (VecDiff::<T>::InsertAt {
                    index: (pos + i) as usize,
                    value: values@[i],
                }),
            diffs_fit(old(items)@, out@),
            apply_diffs(old(items)@, out@) == items@,
        decreases values@.len() - j,
    {
        let v = values[j];
        let ghost out_before = out@;
        let len = items.len();
        assert(pos + j <= len);
        items.insert(pos + j, v);
        let d = VecDiff::InsertAt { index: pos + j, value: v };
        out.push(d);
        j += 1;
        proof {
            lemma_apply_diffs_push(old(items)@, out_before, d);
            assert(items@ =~= old(items)@.subrange(0, pos as int) + values@.take(j as int)
                + old(items)@.subrange(pos as int, old(items)@.len() as int));
        }
    }
    assert(values@.take(j as int) =~= values@);
    out
}

/// A collection that is the concatenation, in source order, of one
/// sub-collection per source item. It keeps its own copy of every element
/// and reports each of its changes as one [`VecDiff`].
pub struct ObservableCollectionFlatMap<T> {
    items: Vec<T>,
    sub_collection_data: Vec<SubCollectionData>,
    next_key: u64,
    changed_event: Event,
}

impl<T: Copy> ObservableCollectionFlatMap<T> {
    /// The flattened elements.
    pub closed spec fn view(&self) -> Seq<T> {
        self.items@
    }

    /// The contents of each sub-collection, in source order.
    pub closed spec fn subs(&self) -> Seq<Seq<T>> {
        spans_of(self.items@, self.sub_collection_data@)
    }

    /// The identity of each sub-collection, in source order.
    pub closed spec fn keys(&self) -> Seq<u64> {
        Seq::new(self.sub_collection_data@.len(), |k: int| self.sub_collection_data@[k].key)
    }

    /// The registrations for change notifications of the flattened list.
    pub closed spec fn listeners(&self) -> Seq<u64> {
        self.changed_event.listeners()
    }

    pub closed spec fn wf(&self) -> bool {
        &&& chained(self.sub_collection_data@, self.items@.len())
        &&& keys_fresh(self.sub_collection_data@, self.next_key)
        &&& self.changed_event.wf()
    }

    /// Whether one more change registration can be handed out.
    pub closed spec fn can_subscribe(&self) -> bool {
        self.changed_event.can_subscribe()
    }

    /// How many more sub-collections can be given an identity.
    pub closed spec fn keys_left(&self) -> int {
        u64::MAX - self.next_key
    }

    /// Whether one more sub-collection can be given an identity.
    pub open spec fn has_key_left(&self) -> bool {
        self.keys_left() > 0
    }

    /// The flattened list is the concatenation of the sub-collections.
    pub proof fn lemma_view_is_flattened(&self)
        requires
            self.wf(),
        ensures
            self.view() == flatten(self.subs()),
            self.view().len() == total_len(self.subs()),
            self.subs().len() == self.keys().len(),
    {
        lemma_layout(self.items@, self.sub_collection_data@);
        lemma_flatten_len(self.subs());
    }

    /// An empty flat map, with no sub-collection.
    pub fn new() -> (r: Self)
        ensures
            r.wf(),
            r.subs() == Seq::<Seq<T>>::empty(),
            r.view() == Seq::<T>::empty(),
            r.listeners() == Seq::<u64>::empty(),
            r.keys_left() == u64::MAX,
            r.can_subscribe(),
    {
        let r = ObservableCollectionFlatMap {
            items: Vec::new(),
            sub_collection_data: Vec::new(),
            next_key: 0,
            changed_event: Event::new(),
        };
        assert(r.subs() =~= Seq::<Seq<T>>::empty());
        r
    }

    /// The number of sub-collections.
    pub fn sub_collection_count(&self) -> (r: usize)
        requires
            self.wf(),
        ensures
            r == self.subs().len(),
    {
        self.sub_collection_data.len()
    }

    /// The identity of the sub-collection at `index` in source order.
    pub fn sub_collection_key(&self, index: usize) -> (r: Option<SubCollectionKey>)
        ensures
            index < self.keys().len() ==> (r matches Some(k) && k.id_spec() == self.keys()[index as int]),
            index >= self.keys().len() ==> r is None,
    {
        if index < self.sub_collection_data.len() {
            Some(SubCollectionKey { id: self.sub_collection_data[index].key })
        } else {
            None
        }
    }

    /// The slot of the sub-collection known as `key`, if it is still present.
    fn find_slot(&self, key: SubCollectionKey) -> (r: Option<usize>)
        ensures
            r matches Some(k) ==> k < self.keys().len() && self.keys()[k as int] == key.id_spec(),
            r is None ==> !self.keys().contains(key.id_spec()),
    {
        let mut i: usize = 0;
        while i < self.sub_collection_data.len()
            invariant
                i <= self.sub_collection_data@.len(),
                forall|j: int| 0 <= j < i ==> self.sub_collection_data@[j].key != key.id,
            decreases self.sub_collection_data@.len() - i,
        {
            if self.sub_collection_data[i].key == key.id {
                return Some(i);
            }
            i += 1;
        }
        proof {
            assert forall|j: int| 0 <= j < self.keys().len() implies self.keys()[j] != key.id by {
                assert(self.keys()[j] == self.sub_collection_data@[j].key);
            }
        }
        None
    }

    /// `value` was inserted at `index` into the sub-collection in slot `k`.
    fn sub_insert_at(&mut self, k: usize, index: usize, value: T) -> (out: Vec<VecDiff<T>>)
        requires
            old(self).wf(),
            k < old(self).subs().len(),
            index <= old(self).subs()[k as int].len(),
        ensures
            final(self).wf(),
            final(self).keys() == old(self).keys(),
            final(self).next_key == old(self).next_key,
            final(self).changed_event == old(self).changed_event,
            final(self).subs() == old(self).subs().update(
                k as int,
                old(self).subs()[k as int].insert(index as int, value),
            ),
            out@ == seq![
                VecDiff::<T>::InsertAt {
                    index: (offset(old(self).subs(), k as int) + index) as usize,
                    value,
                },
            ],
            diffs_fit(old(self).view(), out@),
            apply_diffs(old(self).view(), out@) == final(self).view(),
    {
        let ghost old_items = self.items@;
        let ghost old_data = self.sub_collection_data@;
        proof {
            lemma_slot(old_items, old_data, k as int);
        }
        let slots = self.sub_collection_data.len();
        let len = self.items.len();
        let e = self.sub_collection_data[k];
        assert(e.pos + index <= len);
        let at = e.pos + index;
        self.items.insert(at, value);
        let total = self.items.len();
        assert(e.pos + e.size < total);
        self.sub_collection_data.set(k, SubCollectionData { pos: e.pos, size: e.size + 1, key: e.key });
        assert(slots == self.sub_collection_data@.len());
        shift_positions(&mut self.sub_collection_data, k + 1, 1, true);
        let d = VecDiff::InsertAt { index: at, value };
        let mut out: Vec<VecDiff<T>> = Vec::new();
        out.push(d);
        proof {
            let sub = spans_of(old_items, old_data)[k as int];
            lemma_insert_in_span(old_items, e.pos as int, span_end(old_data[k as int]), index as int, value);
            lemma_replace_span(
                old_items,
                old_data,
                k as int,
                sub.insert(index as int, value),
                self.items@,
                self.sub_collection_data@,
            );
            lemma_keys_kept(old_data, self.sub_collection_data@, self.next_key);
            assert(self.keys() =~= old(self).keys());
            lemma_apply_diffs_push(old_items, Seq::empty(), d);
            assert(out@ =~= Seq::<VecDiff<T>>::empty().push(d));
        }
        out
    }

    /// The element at `index` was removed from the sub-collection in slot `k`.
    fn sub_remove_at(&mut self, k: usize, index: usize) -> (out: Vec<VecDiff<T>>)
        requires
            old(self).wf(),
            k < old(self).subs().len(),
            index < old(self).subs()[k as int].len(),
        ensures
            final(self).wf(),
            final(self).keys() == old(self).keys(),
            final(self).next_key == old(self).next_key,
            final(self).changed_event == old(self).changed_event,
            final(self).subs() == old(self).subs().update(
                k as int,
                old(self).subs()[k as int].remove(index as int),
            ),
            out@ == seq![
                VecDiff::<T>::RemoveAt { index: (offset(old(self).subs(), k as int) + index) as usize },
            ],
            diffs_fit(old(self).view(), out@),
            apply_diffs(old(self).view(), out@) == final(self).view(),
    {
        let ghost old_items = self.items@;
        let ghost old_data = self.sub_collection_data@;
        proof {
            lemma_slot(old_items, old_data, k as int);
        }
        let slots = self.sub_collection_data.len();
        let total = self.items.len();
        let e = self.sub_collection_data[k];
        assert(e.pos + index < total);
        let at = e.pos + index;
        self.sub_collection_data.set(k, SubCollectionData { pos: e.pos, size: e.size - 1, key: e.key });
        assert(slots == self.sub_collection_data@.len());
        shift_positions(&mut self.sub_collection_data, k + 1, 1, false);
        self.items.remove(at);
        let d = VecDiff::RemoveAt { index: at };
        let mut out: Vec<VecDiff<T>> = Vec::new();
        out.push(d);
        proof {
            let sub = spans_of(old_items, old_data)[k as int];
            lemma_remove_in_span(old_items, e.pos as int, span_end(old_data[k as int]), index as int);
            lemma_replace_span(
                old_items,
                old_data,
                k as int,
                sub.remove(index as int),
                self.items@,
                self.sub_collection_data@,
            );
            lemma_keys_kept(old_data, self.sub_collection_data@, self.next_key);
            assert(self.keys() =~= old(self).keys());
            lemma_apply_diffs_push(old_items, Seq::empty(), d);
            assert(out@ =~= Seq::<VecDiff<T>>::empty().push(d));
        }
        out
    }

    /// The sub-collection in slot `k` was cleared; the slot stays, empty.
    fn sub_clear(&mut self, k: usize) -> (out: Vec<VecDiff<T>>)
        requires
            old(self).wf(),
            k < old(self).subs().len(),
        ensures
            final(self).wf(),
            final(self).keys() == old(self).keys(),
            final(self).next_key == old(self).next_key,
            final(self).changed_event == old(self).changed_event,
            final(self).subs() == old(self).subs().update(k as int, Seq::<T>::empty()),
            removals_from_back(
                out@,
                offset(old(self).subs(), k as int),
                old(self).subs()[k as int].len(),
            ),
            diffs_fit(old(self).view(), out@),
            apply_diffs(old(self).view(), out@) == final(self).view(),
    {
        let ghost old_items = self.items@;
        let ghost old_data = self.sub_collection_data@;
        proof {
            lemma_slot(old_items, old_data, k as int);
        }
        let slots = self.sub_collection_data.len();
        let e = self.sub_collection_data[k];
        self.sub_collection_data.set(k, SubCollectionData { pos: e.pos, size: 0, key: e.key });
        assert(slots == self.sub_collection_data@.len());
        shift_positions(&mut self.sub_collection_data, k + 1, e.size, false);
        let out = remove_span(&mut self.items, e.pos, e.size);
        proof {
            assert(self.items@ =~= old_items.subrange(0, e.pos as int) + Seq::<T>::empty()
                + old_items.subrange(span_end(old_data[k as int]), old_items.len() as int));
            lemma_replace_span(
                old_items,
                old_data,
                k as int,
                Seq::<T>::empty(),
                self.items@,
                self.sub_collection_data@,
            );
            lemma_keys_kept(old_data, self.sub_collection_data@, self.next_key);
            assert(self.keys() =~= old(self).keys());
        }
        out
    }

    /// Handles one change of a sub-collection, reported under its identity
    /// `key`: the flattened list takes the change at the sub-collection's
    /// current offset. A sub-collection that was removed changes nothing.
    pub fn handle_sub_diff(&mut self, key: SubCollectionKey, diff: VecDiff<T>) -> (out: Vec<VecDiff<T>>)
        requires
            old(self).wf(),
            forall|k: int|
                0 <= k < old(self).keys().len() && old(self).keys()[k] == key.id_spec() ==> diff_fits(
                    old(self).subs()[k].len(),
                    diff,
                ),
        ensures
            final(self).wf(),
            final(self).keys() == old(self).keys(),
            final(self).listeners() == old(self).listeners(),
            final(self).has_key_left() == old(self).has_key_left(),
            final(self).can_subscribe() == old(self).can_subscribe(),
            diffs_fit(old(self).view(), out@),
            apply_diffs(old(self).view(), out@) == final(self).view(),
            !old(self).keys().contains(key.id_spec()) ==> final(self).subs() == old(self).subs()
                && final(self).view() == old(self).view() && out@.len() == 0,
            forall|k: int|
                0 <= k < old(self).keys().len() && old(self).keys()[k] == key.id_spec() ==> {
                    &&& final(self).subs() == old(self).subs().update(
                        k,
                        apply_diff(old(self).subs()[k], diff),
                    )
                    &&& sub_diff_output(out@, offset(old(self).subs(), k), old(self).subs()[k].len(), diff)
                },
    {
        match self.find_slot(key) {
            None => Vec::new(),
            Some(k) => {
                proof {
                    assert forall|j: int|
                        0 <= j < old(self).keys().len() && old(self).keys()[j] == key.id_spec()
                        implies j == k by {
                        if j != k {
                            assert(self.sub_collection_data@[j].key != self.sub_collection_data@[k as int].key);
                        }
                    }
                }
                match diff {
                    VecDiff::Clear => self.sub_clear(k),
                    VecDiff::InsertAt { index, value } => self.sub_insert_at(k, index, value),
                    VecDiff::RemoveAt { index } => self.sub_remove_at(k, index),
                }
            },
        }
    }

    /// A sub-collection holding `values` was inserted at source position `index`.
    #[verifier::rlimit(40)]
    fn source_insert_at(&mut self, index: usize, values: Vec<T>) -> (r: (Vec<VecDiff<T>>, SubCollectionKey))
        requires
            old(self).wf(),
            index <= old(self).subs().len(),
            old(self).has_key_left(),
        ensures
            final(self).wf(),
            final(self).changed_event == old(self).changed_event,
            final(self).next_key == old(self).next_key + 1,
            final(self).subs() == old(self).subs().insert(index as int, values@),
            !old(self).keys().contains(r.1.id_spec()),
            final(self).keys() == old(self).keys().insert(index as int, r.1.id_spec()),
            insertions_from(r.0@, offset(old(self).subs(), index as int), values@),
            diffs_fit(old(self).view(), r.0@),
            apply_diffs(old(self).view(), r.0@) == final(self).view(),
    {
        let ghost old_items = self.items@;
        let ghost old_data = self.sub_collection_data@;
        proof {
            lemma_layout(old_items, old_data);
        }
        let len = self.items.len();
        let new_pos = if index > 0 {
            assert(span_end(old_data[index - 1]) <= len);
            let prev = self.sub_collection_data[index - 1];
            prev.pos + prev.size
        } else {
            0
        };
        assert(new_pos == start_of(old_data, old_items.len(), index as int)) by {
            if index > 0 && index < old_data.len() {
                assert(old_data[index as int].pos == span_end(old_data[index - 1]));
            }
        }
        let key = self.next_key;
        let size = values.len();
        let out = insert_span(&mut self.items, new_pos, &values);
        let total = self.items.len();
        assert(old_items.len() + size == total);
        self.sub_collection_data.insert(index, SubCollectionData { pos: new_pos, size, key });
        let slots = self.sub_collection_data.len();
        assert(index < slots);
        shift_positions(&mut self.sub_collection_data, index + 1, size, true);
        self.next_key = key + 1;
        proof {
            let data = self.sub_collection_data@;
            lemma_insert_slot(old_items, old_data, index as int, values@, self.items@, data);
            lemma_keys_inserted(old_data, data, index as int, key, self.next_key);
            assert(self.keys() =~= old(self).keys().insert(index as int, key));
            assert(!old(self).keys().contains(key)) by {
                assert forall|i: int| 0 <= i < old(self).keys().len() implies old(self).keys()[i] != key by {
                    assert(old_data[i].key < key);
                }
            }
            assert(offset(spans_of(old_items, old_data), index as int) == start_of(
                old_data,
                old_items.len(),
                index as int,
            ));
        }
        (out, SubCollectionKey { id: key })
    }

    /// The sub-collection at source position `index` was removed, with all its
    /// elements.
    fn source_remove_at(&mut self, index: usize) -> (out: Vec<VecDiff<T>>)
        requires
            old(self).wf(),
            index < old(self).subs().len(),
        ensures
            final(self).wf(),
            final(self).changed_event == old(self).changed_event,
            final(self).next_key == old(self).next_key,
            final(self).subs() == old(self).subs().remove(index as int),
            final(self).keys() == old(self).keys().remove(index as int),
            removals_from_back(
                out@,
                offset(old(self).subs(), index as int),
                old(self).subs()[index as int].len(),
            ),
            diffs_fit(old(self).view(), out@),
            apply_diffs(old(self).view(), out@) == final(self).view(),
    {
        let ghost old_items = self.items@;
        let ghost old_data = self.sub_collection_data@;
        proof {
            lemma_slot(old_items, old_data, index as int);
        }
        let removed = self.sub_collection_data.remove(index);
        shift_positions(&mut self.sub_collection_data, index, removed.size, false);
        let out = remove_span(&mut self.items, removed.pos, removed.size);
        proof {
            let data = self.sub_collection_data@;
            lemma_remove_slot(old_items, old_data, index as int, self.items@, data);
            lemma_keys_removed(old_data, data, index as int, self.next_key);
            assert(self.keys() =~= old(self).keys().remove(index as int));
        }
        out
    }

    /// The source collection was cleared: every sub-collection goes.
    fn source_clear(&mut self) -> (out: Vec<VecDiff<T>>)
        requires
            old(self).wf(),
        ensures
            final(self).wf(),
            final(self).changed_event == old(self).changed_event,
            final(self).next_key == old(self).next_key,
            final(self).subs() == Seq::<Seq<T>>::empty(),
            final(self).keys() == Seq::<u64>::empty(),
            final(self).view() == Seq::<T>::empty(),
            out@ == seq![VecDiff::<T>::Clear],
            diffs_fit(old(self).view(), out@),
            apply_diffs(old(self).view(), out@) == final(self).view(),
    {
        self.items.clear();
        self.sub_collection_data.clear();
        let mut out: Vec<VecDiff<T>> = Vec::new();
        out.push(VecDiff::Clear);
        proof {
            lemma_apply_diffs_push(old(self).items@, Seq::empty(), VecDiff::Clear);
            assert(out@ =~= Seq::<VecDiff<T>>::empty().push(VecDiff::Clear));
            assert(self.subs() =~= Seq::<Seq<T>>::empty());
            assert(self.keys() =~= Seq::<u64>::empty());
        }
        out
    }

    /// Handles one change of the source collection, with the sub-collection
    /// of an inserted source item already mapped. An inserted sub-collection
    /// gets a fresh identity, returned with the changes of the flattened list.
    pub fn handle_source_diff(&mut self, diff: VecDiff<Vec<T>>) -> (r: (
        Vec<VecDiff<T>>,
        Option<SubCollectionKey>,
    ))
        requires
            old(self).wf(),
            diff_fits(old(self).subs().len(), diff),
            diff is InsertAt ==> old(self).has_key_left(),
        ensures
            final(self).wf(),
            final(self).listeners() == old(self).listeners(),
            final(self).can_subscribe() == old(self).can_subscribe(),
            final(self).keys_left() == old(self).keys_left() - if diff is InsertAt {
                1int
            } else {
                0int
            },
            diffs_fit(old(self).view(), r.0@),
            apply_diffs(old(self).view(), r.0@) == final(self).view(),
            match diff {
                VecDiff::Clear => {
                    &&& final(self).subs() == Seq::<Seq<T>>::empty()
                    &&& final(self).keys() == Seq::<u64>::empty()
                    &&& r.0@ == seq![VecDiff::<T>::Clear]
                    &&& r.1 is None
                },
                VecDiff::InsertAt { index, value } => {
                    &&& r.1 matches Some(key)
                    &&& !old(self).keys().contains(key.id_spec())
                    &&& final(self).keys() == old(self).keys().insert(index as int, key.id_spec())
                    &&& final(self).subs() == old(self).subs().insert(index as int, value@)
                    &&& insertions_from(r.0@, offset(old(self).subs(), index as int), value@)
                },
                VecDiff::RemoveAt { index } => {
                    &&& r.1 is None
                    &&& final(self).keys() == old(self).keys().remove(index as int)
                    &&& final(self).subs() == old(self).subs().remove(index as int)
                    &&& removals_from_back(
                        r.0@,
                        offset(old(self).subs(), index as int),
                        old(self).subs()[index as int].len(),
                    )
                },
            },
    {
        match diff {
            VecDiff::Clear => (self.source_clear(), None),
            VecDiff::InsertAt { index, value } => {
                let (out, key) = self.source_insert_at(index, value);
                (out, Some(key))
            },
            VecDiff::RemoveAt { index } => (self.source_remove_at(index), None),
        }
    }

    /// Handles one change of the source collection: an inserted source item
    /// is expanded by `f` into its sub-collection, which gets a fresh
    /// identity, returned with the changes of the flattened list.
    pub fn apply_source_diff<S: Copy, F: Fn(S) -> Vec<T>>(&mut self, diff: VecDiff<S>, f: &F) -> (r: (
        Vec<VecDiff<T>>,
        Option<SubCollectionKey>,
    ))
        requires
            old(self).wf(),
            diff_fits(old(self).subs().len(), diff),
            diff matches VecDiff::InsertAt { value, .. } ==> old(self).has_key_left() && f.requires(
                (value,),
            ),
        ensures
            final(self).wf(),
            final(self).listeners() == old(self).listeners(),
            final(self).can_subscribe() == old(self).can_subscribe(),
            diffs_fit(old(self).view(), r.0@),
            apply_diffs(old(self).view(), r.0@) == final(self).view(),
            match diff {
                VecDiff::Clear => {
                    &&& final(self).subs() == Seq::<Seq<T>>::empty()
                    &&& final(self).keys() == Seq::<u64>::empty()
                    &&& r.0@ == seq![VecDiff::<T>::Clear]
                    &&& r.1 is None
                },
                VecDiff::InsertAt { index, value } => {
                    &&& r.1 matches Some(key)
                    &&& !old(self).keys().contains(key.id_spec())
                    &&& final(self).keys() == old(self).keys().insert(index as int, key.id_spec())
                    &&& final(self).subs().len() == old(self).subs().len() + 1
                    &&& mapped_by(*f, value, final(self).subs()[index as int])
                    &&& final(self).subs() == old(self).subs().insert(
                        index as int,
                        final(self).subs()[index as int],
                    )
                    &&& insertions_from(
                        r.0@,
                        offset(old(self).subs(), index as int),
                        final(self).subs()[index as int],
                    )
                },
                VecDiff::RemoveAt { index } => {
                    &&& r.1 is None
                    &&& final(self).keys() == old(self).keys().remove(index as int)
                    &&& final(self).subs() == old(self).subs().remove(index as int)
                    &&& removals_from_back(
                        r.0@,
                        offset(old(self).subs(), index as int),
                        old(self).subs()[index as int].len(),
                    )
                },
            },
    {
        match diff {
            VecDiff::Clear => (self.source_clear(), None),
            VecDiff::InsertAt { index, value } => {
                let values = f(value);
                let ghost mapped = values@;
                let (out, key) = self.source_insert_at(index, values);
                assert(self.subs()[index as int] == mapped);
                (out, Some(key))
            },
            VecDiff::RemoveAt { index } => (self.source_remove_at(index), None),
        }
    }

    /// Registers for change notifications of the flattened list. A flat map
    /// can always change, so the result is never `None`.
    pub fn on_changed(&mut self) -> (r: Option<Subscription>)
        requires
            old(self).wf(),
            old(self).can_subscribe(),
        ensures
            final(self).wf(),
            final(self).view() == old(self).view(),
            final(self).subs() == old(self).subs(),
            final(self).keys() == old(self).keys(),
            r matches Some(s) && !old(self).listeners().contains(s.id_spec())
                && final(self).listeners() == old(self).listeners().push(s.id_spec()),
    {
        Some(self.changed_event.subscribe())
    }

    /// The registrations to notify of each change, in delivery order.
    pub fn subscribers(&self) -> (r: Vec<Subscription>)
        ensures
            r@.len() == self.listeners().len(),
            forall|i: int| 0 <= i < r@.len() ==> r@[i].id_spec() == self.listeners()[i],
    {
        self.changed_event.emit()
    }
}

/// `out` is what `f` can return for `s`.
pub open spec fn mapped_by<S, D, F: Fn(S) -> Vec<D>>(f: F, s: S, out: Seq<D>) -> bool {
    exists|v: Vec<D>| #[trigger] f.ensures((s,), v) && v@ == out
}

/// Every position of the flattened list lies in the span of one
/// sub-collection, at that sub-collection's offset, and holds the element of
/// the sub-collection at the relative position; its length is the sum of the
/// sub-collection sizes. Every operation of the flat map keeps it well formed,
/// so this holds after any sequence of source and sub-collection changes.
pub proof fn lemma_flattened_lookup<T: Copy>(fm: &ObservableCollectionFlatMap<T>, i: int)
    requires
        fm.wf(),
        0 <= i < fm.view().len(),
    ensures
        fm.view().len() == total_len(fm.subs()),
        exists|k: int|
            0 <= k < fm.subs().len() && offset(fm.subs(), k) <= i < offset(fm.subs(), k)
                + fm.subs()[k].len() && fm.view()[i] == fm.subs()[k][i - offset(fm.subs(), k)],
{
    fm.lemma_view_is_flattened();
    lemma_flatten_index(fm.subs(), i);
}

/// Once a source removal has dropped the sub-collection at `index`, its
/// identity is gone: any later change reported under it leaves the flat map
/// as it is (see [`ObservableCollectionFlatMap::handle_sub_diff`]).
pub proof fn lemma_removed_sub_collection_detached<T: Copy>(
    before: &ObservableCollectionFlatMap<T>,
    after: &ObservableCollectionFlatMap<T>,
    index: int,
)
    requires
        before.wf(),
        0 <= index < before.keys().len(),
        after.keys() == before.keys().remove(index),
    ensures
        !after.keys().contains(before.keys()[index]),
{
    let data = before.sub_collection_data@;
    assert forall|j: int| 0 <= j < after.keys().len() implies after.keys()[j] != before.keys()[index] by {
        if j < index {
            assert(data[j].key != data[index].key);
        } else {
            assert(data[j + 1].key != data[index].key);
        }
    }
}

/// Building a flat map over a source collection.
pub trait ObservableCollectionFlatMapExt<TSrc: Copy> {
    /// The source items, in order.
    spec fn source_items(&self) -> Seq<TSrc>;

    /// A flat map holding, for each source item in order, the sub-collection
    /// that `f` expands it into. It holds no reference to the source: the
    /// source's later changes reach it through
    /// [`ObservableCollectionFlatMap::apply_source_diff`].
    fn flat_map<TDst: Copy, F: Fn(TSrc) -> Vec<TDst>>(&self, f: &F) -> (r: ObservableCollectionFlatMap<TDst>)
        requires
            forall|s: TSrc| f.requires((s,)),
        ensures
            r.wf(),
            r.can_subscribe(),
            r.listeners() == Seq::<u64>::empty(),
            r.keys_left() == u64::MAX - self.source_items().len(),
            r.subs().len() == self.source_items().len(),
            forall|k: int|
                0 <= k < self.source_items().len() ==> mapped_by(
                    *f,
                    self.source_items()[k],
                    #[trigger] r.subs()[k],
                ),
    ;
}

impl<T: Copy> ObservableCollection<T> for ObservableCollectionFlatMap<T> {
    open spec fn items(&self) -> Seq<T> {
        self.view()
    }

    fn len(&self) -> (r: usize) {
        self.items.len()
    }

    fn get(&self, index: usize) -> (r: Option<T>) {
        if index < self.items.len() {
            Some(self.items[index])
        } else {
            None
        }
    }
}

impl<TSrc: Copy, C: ObservableCollection<TSrc>> ObservableCollectionFlatMapExt<TSrc> for C {
    open spec fn source_items(&self) -> Seq<TSrc> {
        self.items()
    }

    fn flat_map<TDst: Copy, F: Fn(TSrc) -> Vec<TDst>>(&self, f: &F) -> (r: ObservableCollectionFlatMap<TDst>) {
        let mut fm = ObservableCollectionFlatMap::new();
        let n = self.len();
        let mut i: usize = 0;
        while i < n
            invariant
                n == self.items().len(),
                i <= n,
                forall|s: TSrc| f.requires((s,)),
                fm.wf(),
                fm.can_subscribe(),
                fm.listeners() == Seq::<u64>::empty(),
                fm.keys_left() == u64::MAX - i,
                fm.subs().len() == i,
                forall|k: int| 0 <= k < i ==> mapped_by(*f, self.items()[k], #[trigger] fm.subs()[k]),
            decreases n - i,
        {
            if let Some(src) = self.get(i) {
                let values = f(src);
                let ghost before = fm.subs();
                let ghost mapped = values@;
                let _ = fm.handle_source_diff(VecDiff::InsertAt { index: i, value: values });
                proof {
                    assert(fm.subs()[i as int] == mapped);
                    assert forall|k: int| 0 <= k < i + 1 implies mapped_by(
                        *f,
                        self.items()[k],
                        #[trigger] fm.subs()[k],
                    ) by {
                        if k < i {
                            assert(fm.subs()[k] == before[k]);
                        }
                    }
                }
            }
            i += 1;
        }
        fm
    }
}

} // verus!
