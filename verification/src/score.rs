//! The score ledger: the best scores and the best line counts of past games,
//! five of each at most.
//!
//! A list of the ledger takes the result of a game by `update_vec`. What is
//! written to the store is `top_five` of a list: its greatest entries in
//! ascending order.

use vstd::prelude::*;
use vstd::multiset::Multiset;
use vstd::relations::{sorted_by, total_ordering};
use vstd::seq_lib::{lemma_multiset_commutative, lemma_sorted_unique};

verus! {

/// Number of entries that a list of the ledger holds at most.
pub const NB_HIGHSCORES: usize = 5;

/// The order of the entries: `a` may stand before `b`.
pub open spec fn at_most() -> spec_fn(u32, u32) -> bool {
    |a: u32, b: u32| a <= b
}

/// Whether the entries stand in ascending order.
pub open spec fn ascending(s: Seq<u32>) -> bool {
    forall|i: int, j: int| 0 <= i <= j < s.len() ==> s[i] <= s[j]
}

/// The entries of `s` in ascending order.
pub open spec fn in_ascending_order(s: Seq<u32>) -> Seq<u32> {
    s.sort_by(at_most())
}

/// The index of the smallest entry; of the first one, where several are
/// smallest.
pub open spec fn min_index(s: Seq<u32>) -> int
    decreases s.len(),
{
    if s.len() <= 1 {
        0
    } else {
        let m = min_index(s.drop_last());
        if s.last() < s[m] {
            s.len() - 1
        } else {
            m
        }
    }
}

/// Whether `value` enters a list: there is room left, or it is greater than the
/// smallest entry.
pub open spec fn enters(before: Seq<u32>, value: u32) -> bool {
    before.len() < 5 || before[min_index(before)] < value
}

/// A list after `value` was offered to it. While it has fewer than five entries
/// the value is added and the list put in ascending order. A full list changes
/// in one place only: a value greater than its smallest entry takes that
/// entry's place; any other value leaves it as it was.
pub open spec fn updated(before: Seq<u32>, value: u32) -> Seq<u32> {
    if before.len() < 5 {
        in_ascending_order(before.push(value))
    } else if before[min_index(before)] < value {
        before.update(min_index(before), value)
    } else {
        before
    }
}

/// The five greatest entries of a list, or all of them if there are fewer, in
/// ascending order.
pub open spec fn best_five(s: Seq<u32>) -> Seq<u32> {
    let sorted = in_ascending_order(s);
    if sorted.len() > 5 {
        sorted.skip(sorted.len() - 5)
    } else {
        sorted
    }
}

/// Whether `list` holds the greatest of `all` values: it holds nothing else,
/// it holds all of them while it has room, and no value that it lacks is
/// greater than one that it holds.
pub open spec fn holds_top(list: Seq<u32>, all: Multiset<u32>) -> bool {
    &&& list.len() <= 5
    &&& list.to_multiset().subset_of(all)
    &&& (list.len() < 5 ==> list.to_multiset() == all)
    &&& forall|d: u32, k: u32|
        #[trigger] all.sub(list.to_multiset()).count(d) > 0 && #[trigger] list.to_multiset().count(
            k,
        ) > 0 ==> d <= k
}

/// `min_index` points into the list, at an entry that none is smaller than and
/// before which all are greater.
pub proof fn lemma_min_index(s: Seq<u32>)
    requires
        s.len() > 0,
    ensures
        0 <= min_index(s) < s.len(),
        forall|j: int| 0 <= j < s.len() ==> s[min_index(s)] <= #[trigger] s[j],
        forall|j: int| 0 <= j < min_index(s) ==> s[min_index(s)] < #[trigger] s[j],
    decreases s.len(),
{
    if s.len() > 1 {
        let front = s.drop_last();
        lemma_min_index(front);
        assert forall|j: int| 0 <= j < s.len() implies s[min_index(s)] <= #[trigger] s[j] by {
            if j < s.len() - 1 {
                assert(front[j] == s[j]);
            }
        }
        assert forall|j: int| 0 <= j < min_index(s) implies s[min_index(s)] < #[trigger] s[j] by {
            assert(front[j] == s[j]);
        }
    }
}

/// Putting a list in ascending order keeps its entries, each as often as it
/// occurred, and leaves them in ascending order.
pub proof fn lemma_in_ascending_order(s: Seq<u32>)
    ensures
        ascending(in_ascending_order(s)),
        in_ascending_order(s).to_multiset() == s.to_multiset(),
        in_ascending_order(s).len() == s.len(),
{
    assert(total_ordering(at_most()));
    s.lemma_sort_by_ensures(at_most());
    let sorted = in_ascending_order(s);
    assert(sorted_by(sorted, at_most()));
    assert forall|i: int, j: int| 0 <= i <= j < sorted.len() implies sorted[i] <= sorted[j] by {
        if i < j {
            assert(at_most()(sorted[i], sorted[j]));
        }
    }
    s.to_multiset_ensures();
    sorted.to_multiset_ensures();
}

/// There is one way only to put a list in ascending order.
pub proof fn lemma_ascending_order_is_unique(s: Seq<u32>, sorted: Seq<u32>)
    requires
        ascending(sorted),
        sorted.to_multiset() == s.to_multiset(),
    ensures
        sorted == in_ascending_order(s),
{
    assert(total_ordering(at_most()));
    s.lemma_sort_by_ensures(at_most());
    assert(sorted_by(sorted, at_most()));
    lemma_sorted_unique(sorted, in_ascending_order(s), at_most());
}

/// Sorts the list with `sort` of the standard library, which puts the entries
/// of a slice in ascending order: afterwards the list holds what it held
/// before, each value as often as before, smallest first.
#[verifier::external_body]
fn sort_ascending(v: &mut Vec<u32>)
    ensures
        ascending(final(v)@),
        final(v)@.to_multiset() == old(v)@.to_multiset(),
{
    v.sort();
}

/// Offers `value` to a list of the ledger and returns whether the list took it.
pub fn update_vec(v: &mut Vec<u32>, value: u32) -> (changed: bool)
    ensures
        final(v)@ == updated(old(v)@, value),
        changed == enters(old(v)@, value),
{
    if v.len() < NB_HIGHSCORES {
        v.push(value);
        sort_ascending(v);
        proof {
            lemma_ascending_order_is_unique(old(v)@.push(value), v@);
        }
        return true;
    }
    let mut best: usize = 0;
    let mut i: usize = 1;
    assert(v@.take(1).len() == 1);
    while i < v.len()
        invariant
            1 <= i <= v.len(),
            v@ == old(v)@,
            best == min_index(v@.take(i as int)),
            best < i,
        decreases v.len() - i,
    {
        proof {
            assert(v@.take(i + 1).drop_last() =~= v@.take(i as int));
            assert(v@.take(i + 1).last() == v@[i as int]);
            assert(v@.take(i + 1)[best as int] == v@[best as int]);
        }
        if v[i] < v[best] {
            best = i;
        }
        i += 1;
    }
    assert(v@.take(i as int) =~= v@);
    if value > v[best] {
        v[best] = value;
        true
    } else {
        false
    }
}

/// The entries of a list that go to the store: its five greatest, or all of
/// them if there are fewer, in ascending order.
pub fn top_five(list: &Vec<u32>) -> (best: Vec<u32>)
    ensures
        best@ == best_five(list@),
{
    let mut sorted: Vec<u32> = Vec::new();
    let mut i: usize = 0;
    while i < list.len()
        invariant
            i <= list.len(),
            sorted@ == list@.take(i as int),
        decreases list.len() - i,
    {
        sorted.push(list[i]);
        assert(sorted@ =~= list@.take(i + 1));
        i += 1;
    }
    assert(list@.take(i as int) =~= list@);
    sort_ascending(&mut sorted);
    proof {
        lemma_ascending_order_is_unique(list@, sorted@);
    }
    if sorted.len() <= NB_HIGHSCORES {
        return sorted;
    }
    let first: usize = sorted.len() - NB_HIGHSCORES;
    let mut best: Vec<u32> = Vec::new();
    let mut k: usize = first;
    while k < sorted.len()
        invariant
            first <= k <= sorted.len(),
            best@ == sorted@.subrange(first as int, k as int),
        decreases sorted.len() - k,
    {
        best.push(sorted[k]);
        assert(best@ =~= sorted@.subrange(first as int, k + 1));
        k += 1;
    }
    assert(best@ =~= sorted@.skip(first as int));
    best
}

/// Putting a value in the place of an entry takes that entry out of the list's
/// contents and puts the value in.
proof fn lemma_update_to_multiset(s: Seq<u32>, i: int, value: u32)
    requires
        0 <= i < s.len(),
    ensures
        s.update(i, value).to_multiset() == s.to_multiset().remove(s[i]).insert(value),
{
    assert(s.update(i, value) =~= s.remove(i).insert(i, value));
    vstd::seq_lib::to_multiset_remove(s, i);
    vstd::seq_lib::to_multiset_insert(s.remove(i), i, value);
}

/// Whether a list holds the greatest of some values depends on what it holds
/// and not on the order in which it holds it.
proof fn lemma_holds_top_in_any_order(list: Seq<u32>, other: Seq<u32>, all: Multiset<u32>)
    requires
        holds_top(list, all),
        other.to_multiset() == list.to_multiset(),
    ensures
        holds_top(other, all),
{
    list.to_multiset_ensures();
    other.to_multiset_ensures();
}

/// A ledger list that starts with one value holds the greatest of that one
/// value.
pub proof fn lemma_first_entry_holds_top(value: u32)
    ensures
        holds_top(seq![value], Multiset::<u32>::empty().insert(value)),
{
    broadcast use vstd::multiset::group_multiset_axioms;

    let list = seq![value];
    assert(list =~= Seq::<u32>::empty().push(value));
    Seq::<u32>::empty().to_multiset_ensures();
    assert(Seq::<u32>::empty().to_multiset() =~= Multiset::<u32>::empty()) by {
        assert(Seq::<u32>::empty().to_multiset().len() == 0);
    }
    let all = Multiset::<u32>::empty().insert(value);
    assert(list.to_multiset() =~= all);
    assert forall|d: u32| all.sub(list.to_multiset()).count(d) == 0 by {}
}

/// An update keeps a list the record of the greatest values: if the list held
/// the greatest of all values offered so far, then after `value` was offered it
/// holds the greatest of those and `value`, and still no more than five.
pub proof fn lemma_update_keeps_top(before: Seq<u32>, all: Multiset<u32>, value: u32)
    requires
        holds_top(before, all),
    ensures
        holds_top(updated(before, value), all.insert(value)),
{
    broadcast use vstd::multiset::group_multiset_axioms;

    let after = updated(before, value);
    before.to_multiset_ensures();
    after.to_multiset_ensures();
    let old_kept = before.to_multiset();
    let new_kept = after.to_multiset();
    let new_all = all.insert(value);
    if before.len() < 5 {
        lemma_in_ascending_order(before.push(value));
        assert(new_kept =~= new_all);
        assert forall|d: u32| new_all.sub(new_kept).count(d) == 0 by {}
    } else {
        lemma_min_index(before);
        let m = min_index(before);
        let least = before[m];
        assert(before.contains(least));
        assert(old_kept.count(least) > 0);
        if least < value {
            lemma_update_to_multiset(before, m, value);
            assert(new_kept == old_kept.remove(least).insert(value));
            assert forall|x: u32| new_kept.count(x) <= new_all.count(x) by {
                assert(old_kept.count(x) <= all.count(x));
            }
            assert forall|d: u32, k: u32|
                #[trigger] new_all.sub(new_kept).count(d) > 0 && #[trigger] new_kept.count(k)
                    > 0 implies d <= k by {
                assert(old_kept.count(d) <= all.count(d));
                // What is kept now is the new value or was kept before.
                if k != value {
                    assert(old_kept.count(k) > 0);
                    assert(before.contains(k));
                    let j = choose|j: int| 0 <= j < before.len() && before[j] == k;
                    assert(least <= before[j]);
                }
                // What is left out now is the old smallest entry or was left out before.
                if d != least {
                    assert(all.sub(old_kept).count(d) > 0);
                    assert(d <= least);
                }
            }
        } else {
            assert forall|x: u32| new_kept.count(x) <= new_all.count(x) by {
                assert(old_kept.count(x) <= all.count(x));
            }
            assert forall|d: u32, k: u32|
                #[trigger] new_all.sub(new_kept).count(d) > 0 && #[trigger] new_kept.count(k)
                    > 0 implies d <= k by {
                assert(old_kept.count(d) <= all.count(d));
                assert(before.contains(k));
                let j = choose|j: int| 0 <= j < before.len() && before[j] == k;
                assert(least <= before[j]);
                if d != value {
                    assert(all.sub(old_kept).count(d) > 0);
                }
            }
        }
    }
}

/// What goes to the store is in ascending order, has five entries at most, and
/// holds the greatest entries of the list that it was taken from.
pub proof fn lemma_best_five(s: Seq<u32>)
    ensures
        ascending(best_five(s)),
        best_five(s).len() == if s.len() > 5 {
            5
        } else {
            s.len() as int
        },
        holds_top(best_five(s), s.to_multiset()),
        s.len() <= 5 ==> best_five(s).to_multiset() == s.to_multiset(),
{
    broadcast use vstd::multiset::group_multiset_axioms;

    lemma_in_ascending_order(s);
    let sorted = in_ascending_order(s);
    let best = best_five(s);
    let all = s.to_multiset();
    best.to_multiset_ensures();
    if sorted.len() > 5 {
        let cut = sorted.len() - 5;
        let rest = sorted.take(cut);
        rest.to_multiset_ensures();
        assert(rest + best =~= sorted);
        lemma_multiset_commutative(rest, best);
        assert(all =~= rest.to_multiset().add(best.to_multiset()));
        assert forall|d: u32, k: u32|
            #[trigger] all.sub(best.to_multiset()).count(d) > 0 && #[trigger] best.to_multiset().count(
                k,
            ) > 0 implies d <= k by {
            assert(rest.to_multiset().count(d) > 0);
            assert(rest.contains(d));
            assert(best.contains(k));
            let i = choose|i: int| 0 <= i < rest.len() && rest[i] == d;
            let j = choose|j: int| 0 <= j < best.len() && best[j] == k;
            assert(sorted[i] == d);
            assert(sorted[cut + j] == k);
        }
    } else {
        assert forall|d: u32| all.sub(best.to_multiset()).count(d) == 0 by {}
    }
}

/// The ledger from one game to the next: if the list that was read held the
/// greatest of all values offered so far, then what is stored after `value` was
/// offered is in ascending order, has five entries at most, and holds the
/// greatest of those values and `value`.
pub proof fn lemma_stored_list_holds_top(loaded: Seq<u32>, all: Multiset<u32>, value: u32)
    requires
        holds_top(loaded, all),
    ensures
        ascending(best_five(updated(loaded, value))),
        best_five(updated(loaded, value)).len() <= 5,
        holds_top(best_five(updated(loaded, value)), all.insert(value)),
{
    let after = updated(loaded, value);
    lemma_update_keeps_top(loaded, all, value);
    lemma_best_five(after);
    lemma_holds_top_in_any_order(after, best_five(after), all.insert(value));
}

/// What the end of a game does to the ledger.
pub struct LedgerUpdate {
    /// The best scores after the game.
    pub highscores: Vec<u32>,
    /// The best line counts after the game.
    pub lines_sent: Vec<u32>,
    /// The score of the game entered the ledger.
    pub new_highest_score: bool,
    /// The line count of the game entered the ledger.
    pub new_highest_lines_sent: bool,
    /// The ledger changed and has to be stored.
    pub save: bool,
}

/// Enters the result of a game into the ledger. `stored` is what was stored
/// before, `None` where nothing was: the result of the game then starts
/// both lists.
pub fn record_game(stored: Option<(Vec<u32>, Vec<u32>)>, score: u32, nb_lines: u32) -> (out:
    LedgerUpdate)
    ensures
        stored is None ==> out.highscores@ == seq![score] && out.lines_sent@ == seq![nb_lines]
            && out.new_highest_score && out.new_highest_lines_sent,
        stored matches Some(lists) ==> out.highscores@ == updated(lists.0@, score)
            && out.lines_sent@ == updated(lists.1@, nb_lines) && out.new_highest_score == enters(
            lists.0@,
            score,
        ) && out.new_highest_lines_sent == enters(lists.1@, nb_lines),
        out.save == (out.new_highest_score || out.new_highest_lines_sent),
{
    match stored {
        Some((highscores, lines_sent)) => {
            let mut highscores = highscores;
            let mut lines_sent = lines_sent;
            let new_highest_score = update_vec(&mut highscores, score);
            let new_highest_lines_sent = update_vec(&mut lines_sent, nb_lines);
            LedgerUpdate {
                highscores,
                lines_sent,
                new_highest_score,
                new_highest_lines_sent,
                save: new_highest_score || new_highest_lines_sent,
            }
        },
        None => {
            let mut highscores: Vec<u32> = Vec::new();
            highscores.push(score);
            let mut lines_sent: Vec<u32> = Vec::new();
            lines_sent.push(nb_lines);
            assert(highscores@ =~= seq![score]);
            assert(lines_sent@ =~= seq![nb_lines]);
            LedgerUpdate {
                highscores,
                lines_sent,
                new_highest_score: true,
                new_highest_lines_sent: true,
                save: true,
            }
        },
    }
}

} // verus!
