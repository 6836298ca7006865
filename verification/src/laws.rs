//! Laws of editing and reading, stated over logical sequences: what `insert` and
//! `remove` do to the view of a buffer, and what `next` and `next_back` do to what
//! remains of an iterator.

use vstd::prelude::*;

verus! {

/// One call of `insert` or `remove`.
pub enum Edit<T> {
    /// `insert(at, value)`.
    Insert { at: int, value: T },
    /// `remove(at)`.
    Remove { at: int },
}

/// The sequence after `edit`: an insertion puts its value at its index, a removal
/// takes out the element at its index, or nothing where there is none.
pub open spec fn apply<T>(s: Seq<T>, edit: Edit<T>) -> Seq<T> {
    match edit {
        Edit::Insert { at, value } => s.insert(at, value),
        Edit::Remove { at } => if 0 <= at < s.len() {
            s.remove(at)
        } else {
            s
        },
    }
}

/// Whether `edit` may be made on `s`: an insertion needs an index that is at most the
/// length; a removal may always be tried.
pub open spec fn permitted<T>(s: Seq<T>, edit: Edit<T>) -> bool {
    match edit {
        Edit::Insert { at, value } => 0 <= at <= s.len(),
        Edit::Remove { at } => true,
    }
}

/// By how much `edit` changes the number of elements of `s`: an insertion adds one, a
/// removal that finds its element takes one away.
pub open spec fn growth<T>(s: Seq<T>, edit: Edit<T>) -> int {
    match edit {
        Edit::Insert { at, value } => 1,
        Edit::Remove { at } => if 0 <= at < s.len() {
            -1
        } else {
            0
        },
    }
}

/// The sequence after the edits in `edits`, made in order.
pub open spec fn apply_all<T>(s: Seq<T>, edits: Seq<Edit<T>>) -> Seq<T>
    decreases edits.len(),
{
    if edits.len() == 0 {
        s
    } else {
        apply_all(apply(s, edits.first()), edits.drop_first())
    }
}

/// Whether each of `edits`, made in order on `s`, may be made when its turn comes.
pub open spec fn all_permitted<T>(s: Seq<T>, edits: Seq<Edit<T>>) -> bool
    decreases edits.len(),
{
    edits.len() == 0 || (permitted(s, edits.first()) && all_permitted(
        apply(s, edits.first()),
        edits.drop_first(),
    ))
}

/// Number of elements inserted less number of elements removed by `edits`, made in
/// order on `s`.
pub open spec fn net_count<T>(s: Seq<T>, edits: Seq<Edit<T>>) -> int
    decreases edits.len(),
{
    if edits.len() == 0 {
        0
    } else {
        growth(s, edits.first()) + net_count(apply(s, edits.first()), edits.drop_first())
    }
}

/// **Length.** After any sequence of insertions and removals the length is the length
/// before plus the number of elements inserted less the number removed.
pub proof fn lemma_length_is_net_count<T>(s: Seq<T>, edits: Seq<Edit<T>>)
    requires
        all_permitted(s, edits),
    ensures
        apply_all(s, edits).len() == s.len() + net_count(s, edits),
    decreases edits.len(),
{
    if edits.len() > 0 {
        lemma_length_is_net_count(apply(s, edits.first()), edits.drop_first());
    }
}

/// **Order.** An insertion at `i` puts the value at `i`, leaves the elements before
/// `i` where they were and moves those from `i` on up by one.
pub proof fn lemma_insert_keeps_order<T>(s: Seq<T>, i: int, value: T)
    requires
        0 <= i <= s.len(),
    ensures
        s.insert(i, value).len() == s.len() + 1,
        s.insert(i, value)[i] == value,
        forall|j: int| 0 <= j < i ==> s.insert(i, value)[j] == s[j],
        forall|j: int| i <= j < s.len() ==> s.insert(i, value)[j + 1] == s[j],
{
}

/// **Inverse.** A removal at `i` right after an insertion at `i` hands back the value
/// that was inserted and restores the sequence.
pub proof fn lemma_remove_undoes_insert<T>(s: Seq<T>, i: int, value: T)
    requires
        0 <= i <= s.len(),
    ensures
        s.insert(i, value)[i] == value,
        s.insert(i, value).remove(i) == s,
        apply_all(s, seq![Edit::Insert { at: i, value }, Edit::Remove { at: i }]) == s,
{
    assert(s.insert(i, value).remove(i) =~= s);
    let edits = seq![Edit::Insert { at: i, value }, Edit::Remove { at: i }];
    assert(edits.drop_first() =~= seq![Edit::Remove { at: i }]);
    assert(edits.drop_first().drop_first() =~= Seq::<Edit<T>>::empty());
    reveal_with_fuel(apply_all, 3);
}

/// The insertions that put the elements of `items` behind the `len` elements of a
/// sequence, one after the other.
pub open spec fn appends<T>(len: nat, items: Seq<T>) -> Seq<Edit<T>> {
    Seq::new(items.len(), |k: int| Edit::Insert { at: len + k, value: items[k] })
}

/// **Appending.** To extend a sequence by `items` is to insert them at its end one by
/// one.
pub proof fn lemma_extend_is_repeated_insert<T>(s: Seq<T>, items: Seq<T>)
    ensures
        all_permitted(s, appends(s.len(), items)),
        apply_all(s, appends(s.len(), items)) == s + items,
    decreases items.len(),
{
    let edits = appends(s.len(), items);
    if items.len() == 0 {
        assert(s + items =~= s);
    } else {
        let next = s.push(items.first());
        assert(apply(s, edits.first()) =~= next);
        assert(edits.drop_first() =~= appends(next.len(), items.drop_first()));
        lemma_extend_is_repeated_insert(next, items.drop_first());
        assert(next + items.drop_first() =~= s + items);
    }
}

/// The end of an iterator that a call reads from: `next` reads from the front,
/// `next_back` from the back.
pub enum End {
    /// `next`.
    Front,
    /// `next_back`.
    Back,
}

/// What a number of calls on an iterator have yielded, and what they have left.
pub struct Reading<T> {
    /// The elements that `next` yielded, in the order of the calls.
    pub from_front: Seq<T>,
    /// The elements that `next_back` yielded, in the order of the calls.
    pub from_back: Seq<T>,
    /// The elements not yet yielded.
    pub rest: Seq<T>,
}

/// The reading after one more call at `end`: the call yields the first or the last of
/// what is left, and nothing once nothing is left.
pub open spec fn read_one<T>(reading: Reading<T>, end: End) -> Reading<T> {
    if reading.rest.len() == 0 {
        reading
    } else {
        match end {
            End::Front => Reading {
                from_front: reading.from_front.push(reading.rest.first()),
                from_back: reading.from_back,
                rest: reading.rest.drop_first(),
            },
            End::Back => Reading {
                from_front: reading.from_front,
                from_back: reading.from_back.push(reading.rest.last()),
                rest: reading.rest.drop_last(),
            },
        }
    }
}

/// The reading after the calls in `ends`, made in order on a new iterator over `s`.
pub open spec fn read<T>(s: Seq<T>, ends: Seq<End>) -> Reading<T>
    decreases ends.len(),
{
    if ends.len() == 0 {
        Reading { from_front: Seq::empty(), from_back: Seq::empty(), rest: s }
    } else {
        read_one(read(s, ends.drop_last()), ends.last())
    }
}

/// **Nothing twice, nothing skipped.** However calls of `next` and `next_back` are
/// mixed, what came from the front, what is left and, in reverse, what came from the
/// back make up the sequence; and as many calls as there are elements leave nothing.
pub proof fn lemma_reading_partitions<T>(s: Seq<T>, ends: Seq<End>)
    ensures
        read(s, ends).from_front + read(s, ends).rest + read(s, ends).from_back.reverse() == s,
        read(s, ends).from_front.len() + read(s, ends).from_back.len() == if ends.len()
            <= s.len() {
            ends.len()
        } else {
            s.len()
        },
    decreases ends.len(),
{
    if ends.len() == 0 {
        assert(Seq::<T>::empty() + s + Seq::<T>::empty().reverse() =~= s);
    } else {
        lemma_reading_partitions(s, ends.drop_last());
        let before = read(s, ends.drop_last());
        let after = read(s, ends);
        assert(before.from_front.len() + before.rest.len() + before.from_back.reverse().len()
            == s.len());
        assert(after.from_front + after.rest + after.from_back.reverse() =~= before.from_front
            + before.rest + before.from_back.reverse());
    }
}

/// **Forward.** As many calls of `next` as there are elements yield the sequence, in
/// order.
pub proof fn lemma_forward_reading<T>(s: Seq<T>, ends: Seq<End>)
    requires
        ends.len() == s.len(),
        forall|k: int| 0 <= k < ends.len() ==> ends[k] is Front,
    ensures
        read(s, ends).from_front == s,
        read(s, ends).rest.len() == 0,
{
    lemma_reading_partitions(s, ends);
    lemma_one_end_only(s, ends);
    let reading = read(s, ends);
    assert(reading.from_front + reading.rest + reading.from_back.reverse() =~= reading.from_front);
}

/// **Backward.** As many calls of `next_back` as there are elements yield the sequence
/// in reverse.
pub proof fn lemma_backward_reading<T>(s: Seq<T>, ends: Seq<End>)
    requires
        ends.len() == s.len(),
        forall|k: int| 0 <= k < ends.len() ==> ends[k] is Back,
    ensures
        read(s, ends).from_back == s.reverse(),
        read(s, ends).rest.len() == 0,
{
    lemma_reading_partitions(s, ends);
    lemma_one_end_only(s, ends);
    let reading = read(s, ends);
    assert(reading.from_front + reading.rest + reading.from_back.reverse()
        =~= reading.from_back.reverse());
    assert(reading.from_back.reverse().reverse() =~= reading.from_back);
}

/// Calls at one end only yield nothing from the other.
proof fn lemma_one_end_only<T>(s: Seq<T>, ends: Seq<End>)
    ensures
        (forall|k: int| 0 <= k < ends.len() ==> ends[k] is Front) ==> read(
            s,
            ends,
        ).from_back.len() == 0,
        (forall|k: int| 0 <= k < ends.len() ==> ends[k] is Back) ==> read(
            s,
            ends,
        ).from_front.len() == 0,
    decreases ends.len(),
{
    if ends.len() > 0 {
        lemma_one_end_only(s, ends.drop_last());
        assert(forall|k: int| 0 <= k < ends.drop_last().len() ==> ends.drop_last()[k] == ends[k]);
    }
}

} // verus!
