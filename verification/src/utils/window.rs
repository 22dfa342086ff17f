//! Windows of flags: the keys they stand for, their ascending listing,
//! and the facts about them that the containers rely on.

use vstd::prelude::*;

verus! {

/// The keys whose flag is raised in a window that starts at `offset`.
pub open spec fn window_keys(bits: Seq<bool>, offset: usize) -> Set<usize> {
    Set::new(|k: usize| offset <= k && k - offset < bits.len() && bits[k - offset])
}

/// A window needs one flag per key between its smallest and largest member,
/// so a set cannot hold both `0` and `usize::MAX`.
pub open spec fn spans_all(keys: Set<usize>) -> bool {
    keys.contains(0) && keys.contains(usize::MAX)
}

/// `m` is the smallest member of `keys`.
pub open spec fn is_least(keys: Set<usize>, m: usize) -> bool {
    keys.contains(m) && forall|k: usize| keys.contains(k) ==> m <= k
}

/// `m` is the largest member of `keys`.
pub open spec fn is_greatest(keys: Set<usize>, m: usize) -> bool {
    keys.contains(m) && forall|k: usize| keys.contains(k) ==> k <= m
}

/// `listing` holds exactly the members of `keys`, each once, in ascending order.
pub open spec fn lists(keys: Set<usize>, listing: Seq<usize>) -> bool {
    &&& forall|i: int, j: int| 0 <= i < j < listing.len() ==> listing[i] < listing[j]
    &&& forall|k: usize| keys.contains(k) <==> listing.contains(k)
}

/// The members of `keys` in ascending order.
pub open spec fn ascending(keys: Set<usize>) -> Seq<usize> {
    choose|listing: Seq<usize>| lists(keys, listing)
}

/// A listing has as many entries as the set has members.
pub proof fn lemma_lists_len(keys: Set<usize>, listing: Seq<usize>)
    requires
        lists(keys, listing),
    ensures
        keys.finite(),
        listing.no_duplicates(),
        listing.to_set() == keys,
        listing.len() == keys.len(),
{
    assert(listing.to_set() =~= keys);
    listing.unique_seq_to_set();
}

/// A set has only one ascending listing.
pub proof fn lemma_lists_unique(keys: Set<usize>, one: Seq<usize>, other: Seq<usize>)
    requires
        lists(keys, one),
        lists(keys, other),
    ensures
        one == other,
    decreases one.len(),
{
    lemma_lists_len(keys, one);
    lemma_lists_len(keys, other);
    if one.len() > 0 {
        let top = one.last();
        let at = choose|i: int| 0 <= i < other.len() && other[i] == top;
        if at < other.len() - 1 {
            let more = other.last();
            assert(one.contains(more));
        }
        let rest = keys.remove(top);
        assert forall|k: usize| rest.contains(k) <==> one.drop_last().contains(k) by {
            if rest.contains(k) {
                let i = choose|i: int| 0 <= i < one.len() && one[i] == k;
                assert(one.drop_last()[i] == k);
            }
        }
        assert forall|k: usize| rest.contains(k) <==> other.drop_last().contains(k) by {
            if rest.contains(k) {
                let i = choose|i: int| 0 <= i < other.len() && other[i] == k;
                assert(other.drop_last()[i] == k);
            }
        }
        lemma_lists_unique(rest, one.drop_last(), other.drop_last());
        assert(other =~= other.drop_last().push(top));
    }
}

/// Whatever lists a set is its ascending listing.
pub proof fn lemma_lists_ascending(keys: Set<usize>, listing: Seq<usize>)
    requires
        lists(keys, listing),
    ensures
        listing == ascending(keys),
        listing.len() == keys.len(),
{
    lemma_lists_unique(keys, listing, ascending(keys));
    lemma_lists_len(keys, listing);
}

/// An ascending listing starts with the smallest member and ends with the largest.
pub proof fn lemma_lists_ends(keys: Set<usize>, listing: Seq<usize>)
    requires
        lists(keys, listing),
    ensures
        listing.len() == 0 ==> keys == Set::<usize>::empty(),
        listing.len() > 0 ==> is_least(keys, listing.first()) && is_greatest(keys, listing.last()),
{
}

/// The keys of the raised flags `from..to` of a window, in ascending order.
pub open spec fn raised_keys(bits: Seq<bool>, offset: usize, from: int, to: int) -> Seq<usize>
    decreases to - from,
{
    if from >= to {
        Seq::empty()
    } else if bits[to - 1] {
        raised_keys(bits, offset, from, to - 1).push((offset + to - 1) as usize)
    } else {
        raised_keys(bits, offset, from, to - 1)
    }
}

/// Every raised flag stands for a key that fits in `usize`.
pub open spec fn keys_fit(bits: Seq<bool>, offset: usize) -> bool {
    forall|i: int| 0 <= i < bits.len() && bits[i] ==> offset + i <= usize::MAX
}

/// The listing of the raised flags `from..to` is ascending and holds the
/// keys of exactly these flags.
pub proof fn lemma_raised_keys(bits: Seq<bool>, offset: usize, from: int, to: int)
    requires
        0 <= from <= to <= bits.len(),
        keys_fit(bits, offset),
    ensures
        forall|i: int, j: int|
            0 <= i < j < raised_keys(bits, offset, from, to).len() ==> raised_keys(
                bits,
                offset,
                from,
                to,
            )[i] < raised_keys(bits, offset, from, to)[j],
        forall|k: usize|
            raised_keys(bits, offset, from, to).contains(k) <==> offset + from <= k < offset + to
                && bits[k - offset],
        raised_keys(bits, offset, from, to).len() <= to - from,
    decreases to - from,
{
    let all = raised_keys(bits, offset, from, to);
    if from < to {
        let front = raised_keys(bits, offset, from, to - 1);
        lemma_raised_keys(bits, offset, from, to - 1);
        if bits[to - 1] {
            let key = (offset + to - 1) as usize;
            assert forall|i: int, j: int| 0 <= i < j < all.len() implies all[i] < all[j] by {
                if j == front.len() {
                    assert(front.contains(front[i]));
                }
            }
            assert forall|k: usize| all.contains(k) <==> offset + from <= k < offset + to
                && bits[k - offset] by {
                if all.contains(k) {
                    let i = choose|i: int| 0 <= i < all.len() && all[i] == k;
                    if i < front.len() {
                        assert(front.contains(k));
                    }
                }
                if offset + from <= k < offset + to && bits[k - offset] {
                    if k == key {
                        assert(all[front.len() as int] == k);
                    } else {
                        assert(front.contains(k));
                        let i = choose|i: int| 0 <= i < front.len() && front[i] == k;
                        assert(all[i] == k);
                    }
                }
            }
        }
    }
}

/// The listing of the raised flags `from..to` is that of the flags after
/// the first, with the key of the first before it if it is raised.
pub proof fn lemma_raised_front(bits: Seq<bool>, offset: usize, from: int, to: int)
    requires
        0 <= from < to <= bits.len(),
    ensures
        raised_keys(bits, offset, from, to) == if bits[from] {
            seq![(offset + from) as usize] + raised_keys(bits, offset, from + 1, to)
        } else {
            raised_keys(bits, offset, from + 1, to)
        },
    decreases to - from,
{
    if from + 1 == to {
        assert(raised_keys(bits, offset, from, from) =~= Seq::<usize>::empty());
    } else {
        lemma_raised_front(bits, offset, from, to - 1);
    }
}

/// The raised flags of a window list its keys.
pub proof fn lemma_window_listing(bits: Seq<bool>, offset: usize)
    requires
        keys_fit(bits, offset),
    ensures
        lists(window_keys(bits, offset), raised_keys(bits, offset, 0, bits.len() as int)),
{
    lemma_raised_keys(bits, offset, 0, bits.len() as int);
}

/// A window without a raised flag has no keys.
pub proof fn lemma_window_all_false(bits: Seq<bool>, offset: usize)
    requires
        forall|i: int| 0 <= i < bits.len() ==> !bits[i],
    ensures
        window_keys(bits, offset) == Set::<usize>::empty(),
{
}

/// A window without keys has no flag raised, if each flag stands for a key.
pub proof fn lemma_window_none_raised(bits: Seq<bool>, offset: usize)
    requires
        window_keys(bits, offset) == Set::<usize>::empty(),
        offset + bits.len() <= usize::MAX + 1,
    ensures
        forall|i: int| 0 <= i < bits.len() ==> !bits[i],
{
    assert forall|i: int| 0 <= i < bits.len() implies !bits[i] by {
        if bits[i] {
            assert(window_keys(bits, offset).contains((offset + i) as usize));
        }
    }
}

/// Flags that are added lowered at the end of a window change neither its
/// keys nor where its raised flags are.
pub proof fn lemma_window_extended(short: Seq<bool>, long: Seq<bool>, offset: usize)
    requires
        short.len() <= long.len(),
        long.subrange(0, short.len() as int) == short,
        forall|i: int| short.len() <= i < long.len() ==> !long[i],
    ensures
        window_keys(long, offset) == window_keys(short, offset),
        forall|i: int| 0 <= i < long.len() ==> long[i] == (i < short.len() && short[i]),
{
    assert forall|i: int| 0 <= i < long.len() implies long[i] == (i < short.len()
        && short[i]) by {}
}

/// Raising a flag inserts its key.
pub proof fn lemma_window_raise(bits: Seq<bool>, offset: usize, i: int)
    requires
        0 <= i < bits.len(),
        offset + i <= usize::MAX,
    ensures
        window_keys(bits.update(i, true), offset) == window_keys(bits, offset).insert(
            (offset + i) as usize,
        ),
{
}

/// Lowering a flag removes its key.
pub proof fn lemma_window_lower(bits: Seq<bool>, offset: usize, i: int)
    requires
        0 <= i < bits.len(),
        offset + i <= usize::MAX,
    ensures
        window_keys(bits.update(i, false), offset) == window_keys(bits, offset).remove(
            (offset + i) as usize,
        ),
{
}

/// A window never marks more keys than it has flags.
pub proof fn lemma_window_bound(bits: Seq<bool>, offset: usize)
    ensures
        window_keys(bits, offset).finite(),
        window_keys(bits, offset).len() <= bits.len(),
    decreases bits.len(),
{
    if bits.len() == 0 {
        assert(window_keys(bits, offset) =~= Set::<usize>::empty());
    } else {
        let front = bits.drop_last();
        let n = bits.len() - 1;
        lemma_window_bound(front, offset);
        if offset + n <= usize::MAX && bits[n] {
            assert(window_keys(bits, offset) =~= window_keys(front, offset).insert(
                (offset + n) as usize,
            ));
        } else {
            assert(window_keys(bits, offset) =~= window_keys(front, offset));
        }
    }
}

/// Moving a window keeps its keys when every raised flag stays inside.
pub proof fn lemma_window_rebased(
    src: Seq<bool>,
    offset: usize,
    min: usize,
    max: usize,
    dst: Seq<bool>,
    lo: usize,
)
    requires
        offset <= min <= max,
        max - offset < src.len(),
        lo <= min,
        max - lo < dst.len(),
        forall|i: int| 0 <= i < src.len() && src[i] ==> min - offset <= i <= max - offset,
        forall|i: int|
            0 <= i < dst.len() ==> dst[i] == (min <= lo + i <= max && src[lo + i - offset]),
    ensures
        window_keys(dst, lo) == window_keys(src, offset),
{
    assert forall|k: usize| window_keys(dst, lo).contains(k) == window_keys(src, offset).contains(
        k,
    ) by {}
}

/// A fresh window over the keys `lo..=hi` that copies the flags of the keys
/// `min..=max` from a window starting at `offset`.
pub(crate) fn rebase(
    src: &Vec<bool>,
    offset: usize,
    min: usize,
    max: usize,
    lo: usize,
    hi: usize,
) -> (dst: Vec<bool>)
    requires
        offset <= min <= max,
        max - offset < src@.len(),
        lo <= min,
        max <= hi,
        hi - lo < usize::MAX,
    ensures
        dst@.len() == hi - lo + 1,
        forall|i: int|
            0 <= i < dst@.len() ==> dst@[i] == (min <= lo + i <= max && src@[lo + i - offset]),
{
    let width: usize = hi - lo + 1;
    let mut dst = vec![false; width];
    let count: usize = max - min + 1;
    let from: usize = min - offset;
    let to: usize = min - lo;
    let mut n: usize = 0;
    while n < count
        invariant
            offset <= min <= max,
            max - offset < src@.len(),
            lo <= min,
            max <= hi,
            count == max - min + 1,
            from == min - offset,
            to == min - lo,
            n <= count,
            dst@.len() == hi - lo + 1,
            forall|i: int|
                0 <= i < dst@.len() ==> dst@[i] == (min <= lo + i < min + n && src@[lo + i
                    - offset]),
        decreases count - n,
    {
        dst.set(to + n, src[from + n]);
        n += 1;
    }
    dst
}

/// Raises the flag of every entry of `slice` in a window that covers them
/// all and returns how many members the window has afterwards.
pub(crate) fn raise_all(
    bits: &mut Vec<bool>,
    offset: usize,
    slice: &[usize],
    len: usize,
) -> (count: usize)
    requires
        len == window_keys(old(bits)@, offset).len(),
        forall|i: int|
            0 <= i < slice@.len() ==> offset <= slice@[i] && slice@[i] - offset < old(bits)@.len(),
    ensures
        final(bits)@.len() == old(bits)@.len(),
        window_keys(final(bits)@, offset) == window_keys(old(bits)@, offset).union(
            slice@.to_set(),
        ),
        count == window_keys(final(bits)@, offset).len(),
        forall|i: int| 0 <= i < old(bits)@.len() && old(bits)@[i] ==> final(bits)@[i],
        forall|i: int|
            0 <= i < old(bits)@.len() && final(bits)@[i] && !old(bits)@[i] ==> offset + i
                <= usize::MAX && slice@.contains((offset + i) as usize),
{
    let mut count = len;
    let mut n: usize = 0;
    while n < slice.len()
        invariant
            n <= slice@.len(),
            bits@.len() == old(bits)@.len(),
            forall|i: int|
                0 <= i < slice@.len() ==> offset <= slice@[i] && slice@[i] - offset < bits@.len(),
            window_keys(bits@, offset) == window_keys(old(bits)@, offset).union(
                slice@.take(n as int).to_set(),
            ),
            count == window_keys(bits@, offset).len(),
            forall|i: int| 0 <= i < old(bits)@.len() && old(bits)@[i] ==> bits@[i],
            forall|i: int|
                0 <= i < old(bits)@.len() && bits@[i] && !old(bits)@[i] ==> offset + i
                    <= usize::MAX && slice@.contains((offset + i) as usize),
        decreases slice@.len() - n,
    {
        let id = slice[n];
        let ghost earlier = window_keys(bits@, offset);
        proof {
            assert(slice@.take(n + 1) =~= slice@.take(n as int).push(id));
            slice@.take(n as int).lemma_push_to_set_commute(id);
            assert(window_keys(old(bits)@, offset).union(slice@.take(n + 1).to_set())
                =~= earlier.insert(id));
        }
        if !bits[id - offset] {
            let _flags = bits.len();
            proof {
                lemma_window_raise(bits@, offset, id - offset);
                lemma_window_bound(bits@.update(id - offset, true), offset);
                lemma_window_bound(bits@, offset);
            }
            bits.set(id - offset, true);
            count = count + 1;
        }
        n += 1;
    }
    assert(slice@.take(slice@.len() as int) =~= slice@);
    count
}

/// Index of the first raised flag in `from..=to`, given that the last one is raised.
pub(crate) fn first_raised(bits: &Vec<bool>, from: usize, to: usize) -> (at: usize)
    requires
        from <= to < bits@.len(),
        bits@[to as int],
    ensures
        from <= at <= to,
        bits@[at as int],
        forall|i: int| from <= i < at ==> !bits@[i],
{
    let mut at = from;
    while !bits[at]
        invariant
            from <= at <= to < bits@.len(),
            bits@[to as int],
            forall|i: int| from <= i < at ==> !bits@[i],
        decreases to - at,
    {
        at += 1;
    }
    at
}

/// Index of the last raised flag in `from..=to`, given that the first one is raised.
pub(crate) fn last_raised(bits: &Vec<bool>, from: usize, to: usize) -> (at: usize)
    requires
        from <= to < bits@.len(),
        bits@[from as int],
    ensures
        from <= at <= to,
        bits@[at as int],
        forall|i: int| at < i <= to ==> !bits@[i],
{
    let mut at = to;
    while !bits[at]
        invariant
            from <= at <= to < bits@.len(),
            bits@[from as int],
            forall|i: int| at < i <= to ==> !bits@[i],
        decreases at - from,
    {
        at -= 1;
    }
    at
}

} // verus!
