//! The dictionary order of texts, and lists of texts kept in that order
//! without repetition.

use crate::text::{chars_of, string_of, texts};
use vstd::prelude::*;

verus! {

/// Whether `a` stands before `b` in the dictionary: at the first place
/// where they differ `a` has the smaller character, or `a` ends there and
/// `b` goes on. Characters compare by their code points.
pub open spec fn text_lt(a: Seq<char>, b: Seq<char>) -> bool
    decreases a.len(),
{
    if b.len() == 0 {
        false
    } else if a.len() == 0 {
        true
    } else if a[0] != b[0] {
        a[0] < b[0]
    } else {
        text_lt(a.drop_first(), b.drop_first())
    }
}

/// No text stands before itself.
pub proof fn lemma_text_lt_irreflexive(a: Seq<char>)
    ensures
        !text_lt(a, a),
    decreases a.len(),
{
    if a.len() > 0 {
        lemma_text_lt_irreflexive(a.drop_first());
    }
}

/// The dictionary order is transitive.
pub proof fn lemma_text_lt_transitive(a: Seq<char>, b: Seq<char>, c: Seq<char>)
    requires
        text_lt(a, b),
        text_lt(b, c),
    ensures
        text_lt(a, c),
    decreases a.len(),
{
    if a.len() > 0 && b.len() > 0 && c.len() > 0 && a[0] == b[0] && b[0] == c[0] {
        lemma_text_lt_transitive(a.drop_first(), b.drop_first(), c.drop_first());
    }
}

/// Of two different texts one stands before the other.
pub proof fn lemma_text_lt_total(a: Seq<char>, b: Seq<char>)
    ensures
        a == b || text_lt(a, b) || text_lt(b, a),
    decreases a.len(),
{
    if a.len() == 0 || b.len() == 0 {
        if a.len() == 0 && b.len() == 0 {
            assert(a =~= b);
        }
    } else if a[0] == b[0] {
        lemma_text_lt_total(a.drop_first(), b.drop_first());
        if a.drop_first() == b.drop_first() {
            assert(a =~= seq![a[0]] + a.drop_first());
            assert(b =~= seq![b[0]] + b.drop_first());
        }
    }
}

/// Whether `a` stands before `b` in the dictionary.
pub fn chars_lt(a: &[char], b: &[char]) -> (before: bool)
    ensures
        before == text_lt(a@, b@),
{
    let mut i: usize = 0;
    proof {
        assert(a@.skip(0) =~= a@);
        assert(b@.skip(0) =~= b@);
    }
    while i < a.len() && i < b.len()
        invariant
            i <= a.len(),
            i <= b.len(),
            text_lt(a@, b@) == text_lt(a@.skip(i as int), b@.skip(i as int)),
        decreases a.len() - i,
    {
        let ghost ra = a@.skip(i as int);
        let ghost rb = b@.skip(i as int);
        proof {
            assert(ra[0] == a@[i as int]);
            assert(rb[0] == b@[i as int]);
            assert(ra.drop_first() =~= a@.skip(i + 1));
            assert(rb.drop_first() =~= b@.skip(i + 1));
        }
        if a[i] != b[i] {
            return a[i] < b[i];
        }
        i += 1;
    }
    proof {
        assert(a@.skip(i as int).len() == a@.len() - i);
        assert(b@.skip(i as int).len() == b@.len() - i);
    }
    i < b.len()
}

/// The texts of a list of character vectors.
pub open spec fn rows(list: Seq<Vec<char>>) -> Seq<Seq<char>> {
    Seq::new(list.len(), |i: int| list[i]@)
}

/// Whether every text of `list` stands before the texts that follow it: the
/// list is in dictionary order and holds no text twice.
pub open spec fn strictly_sorted(list: Seq<Seq<char>>) -> bool {
    forall|i: int, j: int| 0 <= i < j < list.len() ==> text_lt(#[trigger] list[i], #[trigger] list[j])
}

/// Finds the place of `text` in `list`: the position of the first text
/// that does not stand before it, and whether that text is `text` itself.
pub fn locate(list: &Vec<Vec<char>>, text: &[char]) -> (place: (usize, bool))
    requires
        strictly_sorted(rows(list@)),
    ensures
        place.0 <= list@.len(),
        forall|k: int| 0 <= k < place.0 ==> text_lt(#[trigger] rows(list@)[k], text@),
        place.1 ==> place.0 < list@.len() && rows(list@)[place.0 as int] == text@,
        !place.1 ==> !rows(list@).contains(text@),
        !place.1 && place.0 < list@.len() ==> text_lt(text@, rows(list@)[place.0 as int]),
{
    let ghost all = rows(list@);
    let mut p: usize = 0;
    while p < list.len() && chars_lt(list[p].as_slice(), text)
        invariant
            p <= list.len(),
            all == rows(list@),
            forall|k: int| 0 <= k < p ==> text_lt(#[trigger] all[k], text@),
        decreases list.len() - p,
    {
        assert(all[p as int] == list@[p as int]@);
        p += 1;
    }
    let found = if p < list.len() {
        assert(all[p as int] == list@[p as int]@);
        !chars_lt(text, list[p].as_slice())
    } else {
        false
    };
    proof {
        if p < list.len() {
            lemma_text_lt_total(text@, all[p as int]);
        }
        if !found && all.contains(text@) {
            let k = choose|k: int| 0 <= k < all.len() && all[k] == text@;
            lemma_text_lt_irreflexive(text@);
            if k > p {
                assert(text_lt(all[p as int], all[k]));
                lemma_text_lt_transitive(text@, all[p as int], text@);
            }
        }
    }
    (p, found)
}

/// A text is in a list with one more text put in if it was in the list
/// before or is the text put in.
pub proof fn lemma_insert_contains(list: Seq<Seq<char>>, at: int, text: Seq<char>, t: Seq<char>)
    requires
        0 <= at <= list.len(),
    ensures
        list.insert(at, text).contains(t) <==> (list.contains(t) || t == text),
{
    let after = list.insert(at, text);
    if after.contains(t) {
        let k = choose|k: int| 0 <= k < after.len() && after[k] == t;
        if k < at {
            assert(list[k] == t);
        } else if k > at {
            assert(list[k - 1] == t);
        }
    }
    if list.contains(t) {
        let k = choose|k: int| 0 <= k < list.len() && list[k] == t;
        if k < at {
            assert(after[k] == t);
        } else {
            assert(after[k + 1] == t);
        }
    }
    if t == text {
        assert(after[at] == t);
    }
}

/// A list in dictionary order stays in order when a text is put between
/// the texts that stand before it and those that it stands before.
pub proof fn lemma_insert_keeps_order(list: Seq<Seq<char>>, at: int, text: Seq<char>)
    requires
        strictly_sorted(list),
        0 <= at <= list.len(),
        forall|k: int| 0 <= k < at ==> text_lt(#[trigger] list[k], text),
        at < list.len() ==> text_lt(text, list[at]),
    ensures
        strictly_sorted(list.insert(at, text)),
{
    let after = list.insert(at, text);
    assert forall|i: int, j: int| 0 <= i < j < after.len() implies text_lt(
        #[trigger] after[i],
        #[trigger] after[j],
    ) by {
        if j < at {
            assert(after[i] == list[i] && after[j] == list[j]);
        } else if j == at {
            assert(after[i] == list[i]);
        } else if i == at {
            assert(after[j] == list[j - 1]);
            if j - 1 > at {
                assert(text_lt(list[at], list[j - 1]));
                lemma_text_lt_transitive(text, list[at], list[j - 1]);
            }
        } else if i < at {
            assert(after[i] == list[i] && after[j] == list[j - 1]);
        } else {
            assert(after[i] == list[i - 1] && after[j] == list[j - 1]);
        }
    }
}

/// Puts `text` at its place in `list`, unless `list` holds it already.
pub fn insert_sorted(list: &mut Vec<Vec<char>>, text: Vec<char>)
    requires
        strictly_sorted(rows(old(list)@)),
    ensures
        strictly_sorted(rows(final(list)@)),
        forall|t: Seq<char>|
            rows(final(list)@).contains(t) <==> (rows(old(list)@).contains(t) || t == text@),
{
    let ghost before = rows(list@);
    let (p, found) = locate(list, text.as_slice());
    if found {
        return ;
    }
    let ghost wanted = text@;
    list.insert(p, text);
    proof {
        assert(rows(list@) =~= before.insert(p as int, wanted));
        lemma_insert_keeps_order(before, p as int, wanted);
        assert forall|t: Seq<char>| rows(list@).contains(t) <==> (before.contains(t) || t
            == wanted) by {
            lemma_insert_contains(before, p as int, wanted, t);
        }
    }
}

/// Puts the texts of `list` in dictionary order, each text once.
pub fn sort_unique(list: &[String]) -> (sorted: Vec<String>)
    ensures
        strictly_sorted(texts(sorted@)),
        forall|t: Seq<char>| texts(sorted@).contains(t) <==> texts(list@).contains(t),
{
    let ghost all = texts(list@);
    let mut kept: Vec<Vec<char>> = Vec::new();
    let mut i: usize = 0;
    proof {
        assert(rows(kept@).len() == 0);
        assert(all.take(0).len() == 0);
    }
    while i < list.len()
        invariant
            i <= list.len(),
            all == texts(list@),
            strictly_sorted(rows(kept@)),
            forall|t: Seq<char>| rows(kept@).contains(t) <==> all.take(i as int).contains(t),
        decreases list.len() - i,
    {
        let ghost before = rows(kept@);
        let text = chars_of(list[i].as_str());
        assert(text@ == all[i as int]);
        insert_sorted(&mut kept, text);
        proof {
            assert forall|t: Seq<char>| rows(kept@).contains(t) <==> all.take(i + 1).contains(
                t,
            ) by {
                let longer = all.take(i + 1);
                let shorter = all.take(i as int);
                if longer.contains(t) {
                    let k = choose|k: int| 0 <= k < longer.len() && longer[k] == t;
                    if k < i {
                        assert(shorter[k] == t);
                    }
                }
                if shorter.contains(t) {
                    let k = choose|k: int| 0 <= k < shorter.len() && shorter[k] == t;
                    assert(longer[k] == t);
                }
                if t == all[i as int] {
                    assert(longer[i as int] == t);
                }
            }
        }
        i += 1;
    }
    proof {
        assert(all.take(all.len() as int) =~= all);
    }
    let mut sorted: Vec<String> = Vec::new();
    let mut m: usize = 0;
    while m < kept.len()
        invariant
            m <= kept.len(),
            sorted@.len() == m,
            forall|q: int| 0 <= q < m ==> (#[trigger] sorted@[q])@ == kept@[q]@,
        decreases kept.len() - m,
    {
        sorted.push(string_of(kept[m].as_slice()));
        m += 1;
    }
    proof {
        assert(texts(sorted@) =~= rows(kept@));
    }
    sorted
}

/// A list in dictionary order without repetition is determined by the
/// texts it holds: two such lists that hold the same texts are equal.
pub proof fn lemma_strictly_sorted_unique(a: Seq<Seq<char>>, b: Seq<Seq<char>>)
    requires
        strictly_sorted(a),
        strictly_sorted(b),
        forall|t: Seq<char>| a.contains(t) <==> b.contains(t),
    ensures
        a == b,
    decreases a.len(),
{
    if a.len() == 0 {
        if b.len() > 0 {
            assert(b.contains(b[0]));
        }
        assert(a =~= b);
    } else if b.len() == 0 {
        assert(a.contains(a[0]));
    } else {
        // Both lists start with their least text, which is therefore the same.
        assert(a.contains(a[0]) && b.contains(b[0]));
        let ia = choose|k: int| 0 <= k < a.len() && a[k] == b[0];
        let ib = choose|k: int| 0 <= k < b.len() && b[k] == a[0];
        if ia > 0 && ib > 0 {
            assert(text_lt(a[0], a[ia]));
            assert(text_lt(b[0], b[ib]));
            lemma_text_lt_transitive(a[0], b[0], a[0]);
            lemma_text_lt_irreflexive(a[0]);
        }
        assert(a[0] == b[0]);
        let ra = a.drop_first();
        let rb = b.drop_first();
        assert forall|t: Seq<char>| ra.contains(t) <==> rb.contains(t) by {
            if ra.contains(t) {
                let k = choose|k: int| 0 <= k < ra.len() && ra[k] == t;
                assert(a[k + 1] == t);
                assert(text_lt(a[0], a[k + 1]));
                assert(a.contains(t));
                let m = choose|m: int| 0 <= m < b.len() && b[m] == t;
                if m == 0 {
                    lemma_text_lt_irreflexive(t);
                }
                assert(rb[m - 1] == t);
            }
            if rb.contains(t) {
                let k = choose|k: int| 0 <= k < rb.len() && rb[k] == t;
                assert(b[k + 1] == t);
                assert(text_lt(b[0], b[k + 1]));
                assert(b.contains(t));
                let m = choose|m: int| 0 <= m < a.len() && a[m] == t;
                if m == 0 {
                    lemma_text_lt_irreflexive(t);
                }
                assert(ra[m - 1] == t);
            }
        }
        assert forall|i: int, j: int| 0 <= i < j < ra.len() implies text_lt(
            #[trigger] ra[i],
            #[trigger] ra[j],
        ) by {
            assert(ra[i] == a[i + 1] && ra[j] == a[j + 1]);
        }
        assert forall|i: int, j: int| 0 <= i < j < rb.len() implies text_lt(
            #[trigger] rb[i],
            #[trigger] rb[j],
        ) by {
            assert(rb[i] == b[i + 1] && rb[j] == b[j + 1]);
        }
        lemma_strictly_sorted_unique(ra, rb);
        assert(a =~= seq![a[0]] + ra);
        assert(b =~= seq![b[0]] + rb);
    }
}

} // verus!
