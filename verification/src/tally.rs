//! Small tables keyed by text: counters, and lists of lines under a
//! heading. Entries stand in the order in which their keys first came.

use vstd::prelude::*;

verus! {

/// A counter, as plain values.
pub struct CountView {
    pub key: Seq<char>,
    pub count: nat,
}

/// How often a key was seen.
pub struct Count {
    pub key: String,
    pub count: u32,
}

impl View for Count {
    type V = CountView;

    open spec fn view(&self) -> CountView {
        CountView { key: self.key@, count: self.count as nat }
    }
}

/// The views of a table of counters.
pub open spec fn counts(table: Seq<Count>) -> Seq<CountView> {
    Seq::new(table.len(), |i: int| table[i]@)
}

/// The position of the first counter of `table` under `key`; the length of
/// the table if there is none.
pub open spec fn count_index(table: Seq<CountView>, key: Seq<char>) -> int
    decreases table.len(),
{
    if table.len() == 0 {
        0
    } else if table[0].key == key {
        0
    } else {
        1 + count_index(table.drop_first(), key)
    }
}

/// The table after `key` has been seen once more: its counter goes up by
/// one, or a counter that stands at one is added at the end.
pub open spec fn bumped(table: Seq<CountView>, key: Seq<char>) -> Seq<CountView> {
    let at = count_index(table, key);
    if at < table.len() {
        table.update(at, CountView { key, count: table[at].count + 1 })
    } else {
        table.push(CountView { key, count: 1 })
    }
}

/// The table after the keys `keys` have been seen, one after the other.
pub open spec fn tallied(keys: Seq<Seq<char>>) -> Seq<CountView>
    decreases keys.len(),
{
    if keys.len() == 0 {
        Seq::<CountView>::empty()
    } else {
        bumped(tallied(keys.drop_last()), keys.last())
    }
}

/// Whether no counter of `table` stands above `bound`.
pub open spec fn counts_within(table: Seq<CountView>, bound: nat) -> bool {
    forall|i: int| 0 <= i < table.len() ==> (#[trigger] table[i]).count <= bound
}

/// [`count_index`] gives a position at which `key` stands, before which it
/// does not stand; or the length of the table, in which `key` then does not
/// stand at all.
pub proof fn lemma_count_index(table: Seq<CountView>, key: Seq<char>)
    ensures
        0 <= count_index(table, key) <= table.len(),
        count_index(table, key) < table.len() ==> table[count_index(table, key)].key == key,
        forall|i: int| 0 <= i < count_index(table, key) ==> (#[trigger] table[i]).key != key,
    decreases table.len(),
{
    if table.len() > 0 && table[0].key != key {
        let rest = table.drop_first();
        lemma_count_index(rest, key);
        assert forall|i: int| 0 <= i < count_index(table, key) implies (#[trigger] table[i]).key
            != key by {
            if i > 0 {
                assert(rest[i - 1] == table[i]);
            }
        }
    }
}

/// A position at which `key` stands and before which it does not stand is
/// the one that [`count_index`] gives.
pub proof fn lemma_count_index_is(table: Seq<CountView>, key: Seq<char>, at: int)
    requires
        0 <= at <= table.len(),
        at < table.len() ==> table[at].key == key,
        forall|i: int| 0 <= i < at ==> (#[trigger] table[i]).key != key,
    ensures
        count_index(table, key) == at,
{
    lemma_count_index(table, key);
    let found = count_index(table, key);
    if found < at {
        assert(table[found].key == key);
    }
}

/// Seeing a key once more raises no counter by more than one.
pub proof fn lemma_bumped_within(table: Seq<CountView>, key: Seq<char>, bound: nat)
    requires
        counts_within(table, bound),
    ensures
        counts_within(bumped(table, key), bound + 1),
{
    lemma_count_index(table, key);
    let after = bumped(table, key);
    assert forall|i: int| 0 <= i < after.len() implies (#[trigger] after[i]).count <= bound + 1 by {
        if i < table.len() {
            assert(table[i].count <= bound);
        }
    }
}

/// Counts `key` once more in `table`.
pub fn bump(table: &mut Vec<Count>, key: String)
    requires
        counts_within(counts(old(table)@), (u32::MAX - 1) as nat),
    ensures
        counts(final(table)@) == bumped(counts(old(table)@), key@),
{
    let ghost before = counts(table@);
    let mut i: usize = 0;
    while i < table.len()
        invariant
            i <= table.len(),
            counts(table@) == before,
            before == counts(old(table)@),
            counts_within(before, (u32::MAX - 1) as nat),
            forall|k: int| 0 <= k < i ==> (#[trigger] before[k]).key != key@,
        decreases table.len() - i,
    {
        assert(before[i as int] == table@[i as int]@);
        if table[i].key == key {
            proof {
                lemma_count_index_is(before, key@, i as int);
            }
            let old_entry = table.remove(i);
            table.insert(i, Count { key, count: old_entry.count + 1 });
            proof {
                assert(counts(table@) =~= bumped(before, key@));
            }
            return ;
        }
        i += 1;
    }
    proof {
        lemma_count_index_is(before, key@, before.len() as int);
    }
    table.push(Count { key, count: 1 });
    proof {
        assert(counts(table@) =~= bumped(before, key@));
    }
}

/// A heading and the lines under it, as plain values.
pub struct GroupView {
    pub key: Seq<char>,
    pub lines: Seq<Seq<char>>,
}

/// A heading and the lines under it.
pub struct Group {
    pub key: String,
    pub lines: Vec<String>,
}

impl View for Group {
    type V = GroupView;

    open spec fn view(&self) -> GroupView {
        GroupView { key: self.key@, lines: Seq::new(self.lines@.len(), |i: int| self.lines@[i]@) }
    }
}

/// The views of a table of groups.
pub open spec fn groups(table: Seq<Group>) -> Seq<GroupView> {
    Seq::new(table.len(), |i: int| table[i]@)
}

/// The position of the first group of `table` under `key`; the length of the
/// table if there is none.
pub open spec fn group_index(table: Seq<GroupView>, key: Seq<char>) -> int
    decreases table.len(),
{
    if table.len() == 0 {
        0
    } else if table[0].key == key {
        0
    } else {
        1 + group_index(table.drop_first(), key)
    }
}

/// The table after `line` has been put under `key`: at the end of the group
/// of that key, or as the only line of a new group at the end of the table.
pub open spec fn with_line(table: Seq<GroupView>, key: Seq<char>, line: Seq<char>) -> Seq<
    GroupView,
> {
    let at = group_index(table, key);
    if at < table.len() {
        table.update(at, GroupView { key, lines: table[at].lines.push(line) })
    } else {
        table.push(GroupView { key, lines: seq![line] })
    }
}

/// [`group_index`] gives a position at which `key` stands, before which it
/// does not stand; or the length of the table.
pub proof fn lemma_group_index(table: Seq<GroupView>, key: Seq<char>)
    ensures
        0 <= group_index(table, key) <= table.len(),
        group_index(table, key) < table.len() ==> table[group_index(table, key)].key == key,
        forall|i: int| 0 <= i < group_index(table, key) ==> (#[trigger] table[i]).key != key,
    decreases table.len(),
{
    if table.len() > 0 && table[0].key != key {
        let rest = table.drop_first();
        lemma_group_index(rest, key);
        assert forall|i: int| 0 <= i < group_index(table, key) implies (#[trigger] table[i]).key
            != key by {
            if i > 0 {
                assert(rest[i - 1] == table[i]);
            }
        }
    }
}

/// A position at which `key` stands and before which it does not stand is
/// the one that [`group_index`] gives.
pub proof fn lemma_group_index_is(table: Seq<GroupView>, key: Seq<char>, at: int)
    requires
        0 <= at <= table.len(),
        at < table.len() ==> table[at].key == key,
        forall|i: int| 0 <= i < at ==> (#[trigger] table[i]).key != key,
    ensures
        group_index(table, key) == at,
{
    lemma_group_index(table, key);
    let found = group_index(table, key);
    if found < at {
        assert(table[found].key == key);
    }
}

/// Puts `line` under `key` in `table`.
pub fn add_line(table: &mut Vec<Group>, key: String, line: String)
    ensures
        groups(final(table)@) == with_line(groups(old(table)@), key@, line@),
{
    let ghost before = groups(table@);
    let mut i: usize = 0;
    while i < table.len()
        invariant
            i <= table.len(),
            groups(table@) == before,
            before == groups(old(table)@),
            forall|k: int| 0 <= k < i ==> (#[trigger] before[k]).key != key@,
        decreases table.len() - i,
    {
        assert(before[i as int] == table@[i as int]@);
        if table[i].key == key {
            proof {
                lemma_group_index_is(before, key@, i as int);
            }
            let mut group = table.remove(i);
            let ghost lines_before = group@.lines;
            group.lines.push(line);
            assert(group@.lines =~= lines_before.push(line@));
            table.insert(i, Group { key, lines: group.lines });
            proof {
                assert(groups(table@) =~= with_line(before, key@, line@));
            }
            return ;
        }
        i += 1;
    }
    proof {
        lemma_group_index_is(before, key@, before.len() as int);
    }
    let mut lines: Vec<String> = Vec::new();
    lines.push(line);
    let group = Group { key, lines };
    assert(group@.lines =~= seq![line@]);
    table.push(group);
    proof {
        assert(groups(table@) =~= with_line(before, key@, line@));
    }
}

} // verus!
