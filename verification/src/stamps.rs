//! Stamps that say when an entry was used last.
//!
//! A cache counts its reads and writes, and stamps each entry with the count at its last use.
//! Stamps that were kept between runs could come near the end of what can be counted. They are
//! then counted anew from the start, which keeps the order in which the entries were used.

use vstd::prelude::*;

use crate::table::Table;

verus! {

/// The latest stamp that leaves room to go on counting.
pub const LATEST: u64 = 0x7fff_ffff_ffff_ffff;

/// The entries that were used before `stamp`.
pub open spec fn earlier(stamps: Map<Seq<char>, u64>, stamp: u64) -> Set<Seq<char>> {
    stamps.dom().filter(|key: Seq<char>| stamps[key] < stamp)
}

/// How many entries were used before `stamp`.
pub open spec fn rank(stamps: Map<Seq<char>, u64>, stamp: u64) -> nat {
    earlier(stamps, stamp).len()
}

/// How many of the first `count` stamps come before `stamp`.
pub open spec fn below(stamps: Seq<u64>, stamp: u64, count: nat) -> nat
    decreases count,
{
    if count == 0 {
        0
    } else {
        below(stamps, stamp, (count - 1) as nat) + if stamps[count - 1] < stamp {
            1nat
        } else {
            0nat
        }
    }
}

/// How many stamps come before `stamp`.
pub fn count_below(stamps: &Vec<u64>, stamp: u64) -> (count: u64)
    ensures
        count == below(stamps@, stamp, stamps@.len()),
        count <= stamps@.len(),
{
    let mut count: u64 = 0;
    for i in 0..stamps.len()
        invariant
            count == below(stamps@, stamp, i as nat),
            count <= i,
    {
        if stamps[i] < stamp {
            count = count + 1;
        }
    }
    count
}

/// The rank of a stamp can be counted entry by entry.
pub proof fn lemma_rank_is_counted<V>(
    table: &Table<V>,
    stamps: Map<Seq<char>, u64>,
    list: Seq<u64>,
    stamp: u64,
)
    requires
        table.wf(),
        stamps.dom() == table@.dom(),
        list.len() == table@.len(),
        forall|i: int| 0 <= i < list.len() ==> stamps[#[trigger] table.key(i)] == list[i],
    ensures
        rank(stamps, stamp) == below(list, stamp, list.len()),
{
    table.lemma_entries();
    lemma_keys_below(table, list, stamp, list.len());
    assert(keys_below(table, list, stamp, list.len()) =~= earlier(stamps, stamp)) by {
        assert forall|key: Seq<char>| earlier(stamps, stamp).contains(key) implies keys_below(
            table,
            list,
            stamp,
            list.len(),
        ).contains(key) by {
            assert(table@.contains_key(key));
            let i = choose|i: int| 0 <= i < table@.len() && #[trigger] table.key(i) == key;
            assert(stamps[table.key(i)] == list[i]);
        }
        assert forall|key: Seq<char>|
            keys_below(table, list, stamp, list.len()).contains(key) implies earlier(
            stamps,
            stamp,
        ).contains(key) by {
            let i = choose|i: int|
                0 <= i < list.len() && #[trigger] table.key(i) == key && list[i] < stamp;
            assert(table@.contains_key(table.key(i)));
        }
    }
}

/// The keys of those of the first `count` entries whose stamp comes before `stamp`.
spec fn keys_below<V>(
    table: &Table<V>,
    list: Seq<u64>,
    stamp: u64,
    count: nat,
) -> Set<Seq<char>> {
    Set::new(
        |key: Seq<char>|
            exists|i: int| 0 <= i < count && #[trigger] table.key(i) == key && list[i] < stamp,
    )
}

proof fn lemma_keys_below<V>(table: &Table<V>, list: Seq<u64>, stamp: u64, count: nat)
    requires
        table.wf(),
        count <= table@.len(),
        list.len() == table@.len(),
    ensures
        keys_below(table, list, stamp, count).finite(),
        keys_below(table, list, stamp, count).len() == below(list, stamp, count),
    decreases count,
{
    let keys = keys_below(table, list, stamp, count);
    if count == 0 {
        assert(keys =~= Set::empty());
    } else {
        let last = count - 1;
        let fewer = keys_below(table, list, stamp, last as nat);
        lemma_keys_below(table, list, stamp, last as nat);
        table.lemma_entries();
        if list[last] < stamp {
            assert(keys =~= fewer.insert(table.key(last))) by {
                assert forall|key: Seq<char>| keys.contains(key) implies fewer.insert(
                    table.key(last),
                ).contains(key) by {
                    let i = choose|i: int|
                        0 <= i < count && #[trigger] table.key(i) == key && list[i] < stamp;
                    if i < last {
                        assert(fewer.contains(table.key(i)));
                    }
                }
                assert(keys.contains(table.key(last)));
            }
            if fewer.contains(table.key(last)) {
                let i = choose|i: int|
                    0 <= i < last && #[trigger] table.key(i) == table.key(last) && list[i] < stamp;
                assert(table.key(i) != table.key(last));
            }
        } else {
            assert(keys =~= fewer) by {
                assert forall|key: Seq<char>| keys.contains(key) implies fewer.contains(key) by {
                    let i = choose|i: int|
                        0 <= i < count && #[trigger] table.key(i) == key && list[i] < stamp;
                    assert(i < last);
                }
            }
        }
    }
}

/// Counting anew keeps the order: of two entries, the one that was used earlier has the smaller
/// rank, two that were used at the same time have the same, and no rank reaches the number of
/// entries.
pub proof fn law_ranks_keep_the_order(
    stamps: Map<Seq<char>, u64>,
    one: Seq<char>,
    other: Seq<char>,
)
    requires
        stamps.dom().finite(),
        stamps.contains_key(one),
        stamps.contains_key(other),
    ensures
        rank(stamps, stamps[one]) < rank(stamps, stamps[other]) <==> stamps[one] < stamps[other],
        rank(stamps, stamps[one]) == rank(stamps, stamps[other]) <==> stamps[one]
            == stamps[other],
        rank(stamps, stamps[one]) < stamps.len(),
{
    if stamps[one] < stamps[other] {
        lemma_rank_grows(stamps, one, stamps[other]);
    } else if stamps[other] < stamps[one] {
        lemma_rank_grows(stamps, other, stamps[one]);
    }
    let before = earlier(stamps, stamps[one]);
    assert(before.subset_of(stamps.dom().remove(one)));
    vstd::set_lib::lemma_len_subset(before, stamps.dom().remove(one));
}

proof fn lemma_rank_grows(stamps: Map<Seq<char>, u64>, key: Seq<char>, stamp: u64)
    requires
        stamps.dom().finite(),
        stamps.contains_key(key),
        stamps[key] < stamp,
    ensures
        rank(stamps, stamps[key]) < rank(stamps, stamp),
{
    let before = earlier(stamps, stamps[key]);
    let after = earlier(stamps, stamp);
    assert(after.contains(key) && !before.contains(key));
    assert(before.insert(key).subset_of(after));
    vstd::set_lib::lemma_len_subset(before.insert(key), after);
}

} // verus!
