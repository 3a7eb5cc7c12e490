//! Listing rows in order.
use vstd::prelude::*;

use crate::error::{list_view, result_view, views, Error, Fault};
use crate::table::{
    contents, distinct_keys, keys_where, lemma_contents_at, lemma_contents_from, Row,
};

verus! {

/// A row with a place in listings.
pub trait Ranked: Sized {
    /// The row is listed ahead of `other`.
    spec fn ahead(&self, other: &Self) -> bool;

    /// Places are in a strict order, and a row between two that are in order is after the first or
    /// before the second.
    proof fn ahead_is_an_order(a: &Self, b: &Self, c: &Self)
        ensures
            !a.ahead(a),
            a.ahead(b) && b.ahead(c) ==> a.ahead(c),
            a.ahead(c) ==> a.ahead(b) || b.ahead(c),
    ;

    /// Whether the row is listed ahead of `other`.
    fn is_ahead(&self, other: &Self) -> (first: bool)
        ensures
            first == self.ahead(other),
    ;
}

/// The row at `i` is listed before the row at `j`: it is ahead, or neither is and it was there
/// first.
pub open spec fn comes_first<R: Ranked>(rows: Seq<R>, i: int, j: int) -> bool {
    rows[i].ahead(&rows[j]) || (!rows[j].ahead(&rows[i]) && i < j)
}

/// The picked rows stand in the order they are listed in.
pub open spec fn in_order<R: Ranked>(rows: Seq<R>, picks: Seq<usize>) -> bool {
    forall|a: int, b: int|
        #![trigger picks[a], picks[b]]
        0 <= a < b < picks.len() ==> comes_first(rows, picks[a] as int, picks[b] as int)
}

/// Each pick is greater than the one before.
pub open spec fn rising(picks: Seq<usize>) -> bool {
    forall|a: int, b: int|
        #![trigger picks[a], picks[b]]
        0 <= a < b < picks.len() ==> picks[a] < picks[b]
}

/// Every pick is a row.
pub open spec fn picks_rows<R>(rows: Seq<R>, picks: Seq<usize>) -> bool {
    forall|a: int| 0 <= a < picks.len() ==> #[trigger] picks[a] < rows.len()
}

/// The picked rows in order.
pub fn arrange<R: Ranked>(rows: &Vec<R>, picks: &Vec<usize>) -> (ordered: Vec<usize>)
    requires
        picks_rows(rows@, picks@),
        rising(picks@),
    ensures
        picks_rows(rows@, ordered@),
        ordered@.no_duplicates(),
        ordered@.to_set() == picks@.to_set(),
        ordered@.len() == picks@.len(),
        in_order(rows@, ordered@),
{
    let mut ordered: Vec<usize> = Vec::new();
    for i in 0..picks.len()
        invariant
            picks_rows(rows@, picks@),
            rising(picks@),
            picks_rows(rows@, ordered@),
            ordered@.no_duplicates(),
            ordered@.len() == i,
            forall|x: usize| #[trigger] ordered@.contains(x) <==> picks@.take(i as int).contains(x),
            in_order(rows@, ordered@),
    {
        let pick: usize = picks[i];
        let mut at: usize = 0;
        while at < ordered.len() && !rows[pick].is_ahead(&rows[ordered[at]])
            invariant
                pick < rows@.len(),
                at <= ordered@.len(),
                picks_rows(rows@, ordered@),
                forall|a: int|
                    0 <= a < at ==> !rows@[pick as int].ahead(
                        &rows@[#[trigger] ordered@[a] as int],
                    ),
            decreases ordered@.len() - at,
        {
            at = at + 1;
        }
        let ghost before = ordered@;
        proof {
            assert forall|a: int| 0 <= a < before.len() implies #[trigger] before[a] < pick by {
                assert(before.contains(before[a]));
                let done = picks@.take(i as int);
                assert(done.contains(before[a]));
                let j = choose|j: int| 0 <= j < done.len() && done[j] == before[a];
                assert(picks@[j] < picks@[i as int]);
            }
        }
        ordered.insert(at, pick);
        proof {
            lemma_placed(rows@, before, at as int, pick);
            assert(ordered@ =~= before.insert(at as int, pick));
            let done = picks@.take(i as int);
            let more = picks@.take(i + 1);
            assert(more =~= done.push(pick));
            assert forall|x: usize| #[trigger] ordered@.contains(x) <==> more.contains(x) by {
                if more.contains(x) && x != pick {
                    let j = choose|j: int| 0 <= j < more.len() && more[j] == x;
                    assert(done[j] == x);
                    assert(before.contains(x));
                }
                if before.contains(x) {
                    assert(done.contains(x));
                    let j = choose|j: int| 0 <= j < done.len() && done[j] == x;
                    assert(more[j] == x);
                }
                if x == pick {
                    assert(more[i as int] == x);
                }
            }
        }
    }
    assert(picks@.take(picks@.len() as int) =~= picks@);
    assert(ordered@.to_set() =~= picks@.to_set());
    ordered
}

/// A pick put where no earlier row comes after it and the next one does keeps the order.
proof fn lemma_placed<R: Ranked>(rows: Seq<R>, before: Seq<usize>, at: int, pick: usize)
    requires
        pick < rows.len(),
        0 <= at <= before.len(),
        picks_rows(rows, before),
        before.no_duplicates(),
        forall|a: int| 0 <= a < before.len() ==> #[trigger] before[a] < pick,
        in_order(rows, before),
        forall|a: int|
            0 <= a < at ==> !rows[pick as int].ahead(&rows[#[trigger] before[a] as int]),
        at < before.len() ==> rows[pick as int].ahead(&rows[before[at] as int]),
    ensures
        picks_rows(rows, before.insert(at, pick)),
        before.insert(at, pick).no_duplicates(),
        in_order(rows, before.insert(at, pick)),
        forall|x: usize|
            #[trigger] before.insert(at, pick).contains(x) <==> before.contains(x) || x == pick,
{
    let after = before.insert(at, pick);
    let origin = |a: int| -> int
        {
            if a < at {
                a
            } else {
                a - 1
            }
        };
    assert forall|a: int| 0 <= a < after.len() && a != at implies #[trigger] after[a]
        == before[origin(a)] by {}
    assert forall|a: int, b: int|
        #![trigger after[a], after[b]]
        0 <= a < b < after.len() implies comes_first(rows, after[a] as int, after[b] as int)
        && after[a] != after[b] by {
        if a == at {
            assert(after[b] == before[b - 1]);
            if b - 1 > at {
                assert(comes_first(rows, before[at] as int, before[b - 1] as int));
            }
            R::ahead_is_an_order(
                &rows[pick as int],
                &rows[before[b - 1] as int],
                &rows[before[at] as int],
            );
            R::ahead_is_an_order(
                &rows[pick as int],
                &rows[before[at] as int],
                &rows[before[b - 1] as int],
            );
            R::ahead_is_an_order(
                &rows[before[at] as int],
                &rows[before[b - 1] as int],
                &rows[before[at] as int],
            );
        } else if b == at {
            assert(after[a] == before[a]);
        } else {
            assert(after[a] == before[origin(a)]);
            assert(after[b] == before[origin(b)]);
        }
    }
    assert forall|x: usize|
        #[trigger] after.contains(x) <==> before.contains(x) || x == pick by {
        if after.contains(x) {
            let a = choose|a: int| 0 <= a < after.len() && after[a] == x;
            if a != at {
                assert(before[origin(a)] == x);
            }
        }
        if before.contains(x) {
            let a = choose|a: int| 0 <= a < before.len() && before[a] == x;
            if a < at {
                assert(after[a] == x);
            } else {
                assert(after[a + 1] == x);
            }
        }
        if x == pick {
            assert(after[at] == x);
        }
    }
}

/// A row of a table whose place in listings rests on its key and on what it says.
pub trait Listed: Row + Ranked {
    /// A row that says `a` under `ka` is listed before one that says `b` under `kb`.
    spec fn precedes(ka: Seq<Seq<char>>, a: Self::V, kb: Seq<Seq<char>>, b: Self::V) -> bool;

    proof fn precedes_is_an_order(
        ka: Seq<Seq<char>>,
        a: Self::V,
        kb: Seq<Seq<char>>,
        b: Self::V,
        kc: Seq<Seq<char>>,
        c: Self::V,
    )
        ensures
            !Self::precedes(ka, a, ka, a),
            Self::precedes(ka, a, kb, b) && Self::precedes(kb, b, kc, c) ==> Self::precedes(
                ka,
                a,
                kc,
                c,
            ),
    ;

    /// The order of rows is that of what they say, and only rows with the same key are in none.
    proof fn ahead_is_precedes(one: &Self, two: &Self)
        ensures
            one.ahead(two) == Self::precedes(one.key(), one@, two.key(), two@),
            one.ahead(two) || two.ahead(one) || one.key() == two.key(),
    ;
}

/// The keys of the rows that are wanted, each before the next.
pub open spec fn is_listing<R: Listed>(
    rows: Map<Seq<Seq<char>>, R::V>,
    wanted: spec_fn(Seq<Seq<char>>, R::V) -> bool,
    keys: Seq<Seq<Seq<char>>>,
) -> bool {
    &&& keys.no_duplicates()
    &&& keys.to_set() == keys_where(rows, wanted)
    &&& forall|a: int, b: int|
        #![trigger keys[a], keys[b]]
        0 <= a < b < keys.len() ==> R::precedes(keys[a], rows[keys[a]], keys[b], rows[keys[b]])
}

/// The keys of the picked rows.
pub open spec fn picked_keys<R: Row>(rows: Seq<R>, picks: Seq<usize>) -> Seq<Seq<Seq<char>>> {
    Seq::new(picks.len(), |a: int| rows[picks[a] as int].key())
}

/// The picks are the wanted rows.
pub open spec fn picks_wanted<R: Row>(
    rows: Seq<R>,
    wanted: spec_fn(Seq<Seq<char>>, R::V) -> bool,
    picks: Seq<usize>,
) -> bool {
    forall|i: usize|
        #![trigger picks.contains(i)]
        picks.contains(i) <==> i < rows.len() && wanted(rows[i as int].key(), rows[i as int]@)
}

/// Rows that are picked if and only if wanted, and stand in order, are a listing.
pub proof fn lemma_listing<R: Listed>(
    rows: Seq<R>,
    wanted: spec_fn(Seq<Seq<char>>, R::V) -> bool,
    picks: Seq<usize>,
)
    requires
        rows.len() <= usize::MAX,
        distinct_keys(rows),
        picks.no_duplicates(),
        in_order(rows, picks),
        picks_wanted(rows, wanted, picks),
    ensures
        is_listing::<R>(contents(rows), wanted, picked_keys(rows, picks)),
        forall|a: int|
            0 <= a < picks.len() ==> contents(rows)[picked_keys(rows, picks)[a]]
                == rows[#[trigger] picks[a] as int]@,
{
    let keys = picked_keys(rows, picks);
    assert forall|a: int| 0 <= a < picks.len() implies contents(rows).contains_key(keys[a])
        && contents(rows)[keys[a]] == rows[#[trigger] picks[a] as int]@ by {
        assert(picks.contains(picks[a]));
        lemma_contents_at(rows, picks[a] as int);
    }
    assert forall|a: int, b: int|
        #![trigger keys[a], keys[b]]
        0 <= a < b < keys.len() implies R::precedes(
        keys[a],
        contents(rows)[keys[a]],
        keys[b],
        contents(rows)[keys[b]],
    ) && keys[a] != keys[b] by {
        let i = picks[a] as int;
        let j = picks[b] as int;
        assert(picks.contains(picks[a]) && picks.contains(picks[b]));
        assert(i != j);
        assert(rows[i].key() != rows[j].key()) by {
            if i < j {
                assert(rows[i].key() != rows[j].key());
            } else {
                assert(rows[j].key() != rows[i].key());
            }
        }
        assert(comes_first(rows, i, j));
        R::ahead_is_precedes(&rows[i], &rows[j]);
    }
    assert forall|key: Seq<Seq<char>>|
        keys.to_set().contains(key) <==> keys_where(contents(rows), wanted).contains(key) by {
        if keys.to_set().contains(key) {
            let a = choose|a: int| 0 <= a < keys.len() && keys[a] == key;
            assert(picks.contains(picks[a]));
            assert(contents(rows)[keys[a]] == rows[picks[a] as int]@);
        }
        if keys_where(contents(rows), wanted).contains(key) {
            let i = lemma_contents_from(rows, key);
            assert((i as usize) as int == i);
            assert(picks.contains(i as usize));
            let a = choose|a: int| 0 <= a < picks.len() && picks[a] == i as usize;
            assert(keys[a] == key);
        }
    }
    assert(keys.to_set() =~= keys_where(contents(rows), wanted));
}

/// Keys in strict order that hold the same are the same.
proof fn lemma_strict_order_is_unique<R: Listed>(
    rows: Map<Seq<Seq<char>>, R::V>,
    one: Seq<Seq<Seq<char>>>,
    two: Seq<Seq<Seq<char>>>,
)
    requires
        one.no_duplicates(),
        two.no_duplicates(),
        one.to_set() == two.to_set(),
        forall|a: int, b: int|
            #![trigger one[a], one[b]]
            0 <= a < b < one.len() ==> R::precedes(one[a], rows[one[a]], one[b], rows[one[b]]),
        forall|a: int, b: int|
            #![trigger two[a], two[b]]
            0 <= a < b < two.len() ==> R::precedes(two[a], rows[two[a]], two[b], rows[two[b]]),
    ensures
        one == two,
    decreases one.len(),
{
    if one.len() == 0 {
        if two.len() > 0 {
            assert(two.to_set().contains(two[0]));
            assert(one.to_set().contains(two[0]));
        }
        assert(one =~= two);
    } else {
        let x = one.last();
        assert(one[one.len() - 1] == x);
        assert(one.to_set().contains(x));
        assert(two.to_set().contains(x));
        let b = choose|b: int| 0 <= b < two.len() && two[b] == x;
        let y = two.last();
        assert(two[two.len() - 1] == y);
        assert(two.to_set().contains(y));
        assert(one.to_set().contains(y));
        let a = choose|a: int| 0 <= a < one.len() && one[a] == y;
        if x != y {
            assert(R::precedes(two[b], rows[two[b]], y, rows[two[two.len() - 1]]));
            assert(R::precedes(one[a], rows[one[a]], x, rows[one[one.len() - 1]]));
            R::precedes_is_an_order(x, rows[x], y, rows[y], x, rows[x]);
        }
        let fewer_one = one.drop_last();
        let fewer_two = two.drop_last();
        assert forall|key: Seq<Seq<char>>|
            fewer_one.to_set().contains(key) <==> fewer_two.to_set().contains(key) by {
            lemma_all_but_last(one, key);
            lemma_all_but_last(two, key);
            assert(one.to_set().contains(key) <==> two.to_set().contains(key));
        }
        assert(fewer_one.to_set() =~= fewer_two.to_set());
        lemma_strict_order_is_unique::<R>(rows, fewer_one, fewer_two);
        assert(one =~= fewer_one.push(x));
        assert(two =~= fewer_two.push(y));
    }
}

proof fn lemma_all_but_last(keys: Seq<Seq<Seq<char>>>, key: Seq<Seq<char>>)
    requires
        keys.no_duplicates(),
        keys.len() > 0,
    ensures
        keys.drop_last().to_set().contains(key) <==> keys.to_set().contains(key) && key
            != keys.last(),
{
    let fewer = keys.drop_last();
    if fewer.to_set().contains(key) {
        let a = choose|a: int| 0 <= a < fewer.len() && fewer[a] == key;
        assert(keys[a] == key);
    }
    if keys.to_set().contains(key) && key != keys.last() {
        let a = choose|a: int| 0 <= a < keys.len() && keys[a] == key;
        assert(fewer[a] == key);
    }
}

/// There is only one listing: which rows are listed, and in what order, is settled.
pub proof fn listing_is_unique<R: Listed>(
    rows: Map<Seq<Seq<char>>, R::V>,
    wanted: spec_fn(Seq<Seq<char>>, R::V) -> bool,
    one: Seq<Seq<Seq<char>>>,
    two: Seq<Seq<Seq<char>>>,
)
    requires
        is_listing::<R>(rows, wanted, one),
        is_listing::<R>(rows, wanted, two),
    ensures
        one == two,
{
    lemma_strict_order_is_unique::<R>(rows, one, two);
}

/// The places that are flagged.
pub open spec fn flagged(flags: Seq<bool>, picks: Seq<usize>) -> bool {
    forall|x: usize|
        #![trigger picks.contains(x)]
        picks.contains(x) <==> x < flags.len() && flags[x as int]
}

/// The places that are flagged, from the first to the last.
fn places(flags: &Vec<bool>) -> (picks: Vec<usize>)
    ensures
        rising(picks@),
        flagged(flags@, picks@),
{
    let mut picks: Vec<usize> = Vec::new();
    for i in 0..flags.len()
        invariant
            rising(picks@),
            forall|a: int| 0 <= a < picks@.len() ==> #[trigger] picks@[a] < i,
            flagged(flags@.take(i as int), picks@),
    {
        let ghost before = picks@;
        let ghost more = flags@.take(i + 1);
        if flags[i] {
            picks.push(i);
        }
        assert forall|x: usize|
            #![trigger picks@.contains(x)]
            picks@.contains(x) <==> x < more.len() && more[x as int] by {
            assert(before.contains(x) <==> x < i && flags@[x as int]);
            if before.contains(x) {
                let a = choose|a: int| 0 <= a < before.len() && before[a] == x;
                assert(picks@[a] == x);
            }
            if x == i && flags@[i as int] {
                assert(picks@[before.len() as int] == x);
            }
            if picks@.contains(x) {
                let a = choose|a: int| 0 <= a < picks@.len() && picks@[a] == x;
                if a < before.len() {
                    assert(before[a] == x);
                }
            }
        }
    }
    assert(flags@.take(flags@.len() as int) =~= flags@);
    picks
}

/// The flagged rows, in the order they are listed in.
pub fn arrange_flagged<R: Ranked>(rows: &Vec<R>, flags: &Vec<bool>) -> (picks: Vec<usize>)
    requires
        flags@.len() == rows@.len(),
    ensures
        picks_rows(rows@, picks@),
        picks@.no_duplicates(),
        flagged(flags@, picks@),
        in_order(rows@, picks@),
{
    let found = places(flags);
    assert forall|a: int| 0 <= a < found@.len() implies #[trigger] found@[a] < rows@.len() by {
        assert(found@.contains(found@[a]));
    }
    let picks = arrange(rows, &found);
    assert forall|x: usize|
        #![trigger picks@.contains(x)]
        picks@.contains(x) <==> x < flags@.len() && flags@[x as int] by {
        assert(picks@.to_set().contains(x) <==> found@.to_set().contains(x));
        assert(found@.contains(x) <==> x < flags@.len() && flags@[x as int]);
    }
    picks
}

/// The wanted rows of a table, in the order they are listed in.
pub fn pick<R: Listed>(
    rows: &Vec<R>,
    flags: &Vec<bool>,
    Ghost(wanted): Ghost<spec_fn(Seq<Seq<char>>, R::V) -> bool>,
) -> (picks: Vec<usize>)
    requires
        distinct_keys(rows@),
        flags@.len() == rows@.len(),
        forall|i: int|
            0 <= i < rows@.len() ==> #[trigger] flags@[i] == wanted(rows@[i].key(), rows@[i]@),
    ensures
        picks_rows(rows@, picks@),
        is_listing::<R>(contents(rows@), wanted, picked_keys(rows@, picks@)),
        forall|a: int|
            0 <= a < picks@.len() ==> contents(rows@)[picked_keys(rows@, picks@)[a]]
                == rows@[#[trigger] picks@[a] as int]@,
{
    let picks = arrange_flagged(rows, flags);
    proof {
        assert(rows.len() == rows@.len());
        assert forall|x: usize|
            #![trigger picks@.contains(x)]
            picks@.contains(x) <==> x < rows@.len() && wanted(
                rows@[x as int].key(),
                rows@[x as int]@,
            ) by {
            assert(picks@.contains(x) <==> x < flags@.len() && flags@[x as int]);
        }
        lemma_listing(rows@, wanted, picks@);
    }
    picks
}

/// A row of a table that is told as a record.
pub trait Told: Listed {
    type Record: View;

    /// The row as it is told, if what is stored of it can be read.
    spec fn tell(key: Seq<Seq<char>>, row: Self::V) -> Result<<Self::Record as View>::V, Fault>;

    /// The row as it is told.
    fn record(&self) -> (record: Result<Self::Record, Error>)
        ensures
            result_view(record) == Self::tell(self.key(), self@),
    ;
}

/// The rows as they are told, or the fault of the first one that cannot be.
pub open spec fn told<R: Told>(
    rows: Map<Seq<Seq<char>>, R::V>,
    keys: Seq<Seq<Seq<char>>>,
) -> Result<Seq<<R::Record as View>::V>, Fault>
    decreases keys.len(),
{
    if keys.len() == 0 {
        Ok(Seq::empty())
    } else {
        match told::<R>(rows, keys.drop_last()) {
            Err(fault) => Err(fault),
            Ok(list) => match R::tell(keys.last(), rows[keys.last()]) {
                Err(fault) => Err(fault),
                Ok(record) => Ok(list.push(record)),
            },
        }
    }
}

/// The wanted rows as they are told, in the order they are listed in.
pub open spec fn lists<R: Told>(
    rows: Map<Seq<Seq<char>>, R::V>,
    wanted: spec_fn(Seq<Seq<char>>, R::V) -> bool,
    list: Result<Seq<<R::Record as View>::V>, Fault>,
) -> bool {
    exists|keys: Seq<Seq<Seq<char>>>|
        #[trigger] is_listing::<R>(rows, wanted, keys) && list == told::<R>(rows, keys)
}

/// A fault among the first of the rows is the fault of the whole list.
proof fn lemma_told_fault_stays<R: Told>(
    rows: Map<Seq<Seq<char>>, R::V>,
    keys: Seq<Seq<Seq<char>>>,
    i: int,
    fault: Fault,
)
    requires
        0 <= i <= keys.len(),
        told::<R>(rows, keys.take(i)) == Err::<Seq<<R::Record as View>::V>, Fault>(fault),
    ensures
        told::<R>(rows, keys) == Err::<Seq<<R::Record as View>::V>, Fault>(fault),
    decreases keys.len() - i,
{
    if i == keys.len() {
        assert(keys.take(i) =~= keys);
    } else {
        assert(keys.take(i + 1).drop_last() =~= keys.take(i));
        lemma_told_fault_stays::<R>(rows, keys, i + 1, fault);
    }
}

/// Rows that are told one by one are told in their places, and all of them are if each can be.
pub proof fn lemma_told_each<R: Told>(
    rows: Map<Seq<Seq<char>>, R::V>,
    keys: Seq<Seq<Seq<char>>>,
)
    ensures
        told::<R>(rows, keys) matches Ok(records) ==> {
            &&& records.len() == keys.len()
            &&& forall|a: int|
                0 <= a < keys.len() ==> R::tell(#[trigger] keys[a], rows[keys[a]]) == Ok::<
                    <R::Record as View>::V,
                    Fault,
                >(records[a])
        },
        (forall|a: int| 0 <= a < keys.len() ==> R::tell(#[trigger] keys[a], rows[keys[a]]) is Ok)
            ==> told::<R>(rows, keys) is Ok,
    decreases keys.len(),
{
    if keys.len() > 0 {
        let fewer = keys.drop_last();
        lemma_told_each::<R>(rows, fewer);
        if forall|a: int|
            0 <= a < keys.len() ==> R::tell(#[trigger] keys[a], rows[keys[a]]) is Ok {
            assert forall|a: int| 0 <= a < fewer.len() implies R::tell(
                #[trigger] fewer[a],
                rows[fewer[a]],
            ) is Ok by {
                assert(R::tell(keys[a], rows[keys[a]]) is Ok);
            }
            assert(R::tell(keys[keys.len() - 1], rows[keys[keys.len() - 1]]) is Ok);
        }
        if let Ok(records) = told::<R>(rows, keys) {
            assert forall|a: int| 0 <= a < keys.len() implies R::tell(
                #[trigger] keys[a],
                rows[keys[a]],
            ) == Ok::<<R::Record as View>::V, Fault>(records[a]) by {
                if a < fewer.len() {
                    assert(keys[a] == fewer[a]);
                }
            }
        }
    }
}

/// The row under the key is wanted and cannot be told, and every wanted row listed before it can.
pub open spec fn is_first_fault<R: Told>(
    rows: Map<Seq<Seq<char>>, R::V>,
    wanted: spec_fn(Seq<Seq<char>>, R::V) -> bool,
    key: Seq<Seq<char>>,
    fault: Fault,
) -> bool {
    &&& rows.contains_key(key)
    &&& wanted(key, rows[key])
    &&& R::tell(key, rows[key]) == Err::<<R::Record as View>::V, Fault>(fault)
    &&& forall|other: Seq<Seq<char>>| #[trigger]
        rows.contains_key(other) && wanted(other, rows[other]) && R::precedes(
            other,
            rows[other],
            key,
            rows[key],
        ) ==> R::tell(other, rows[other]) is Ok
}

/// A list fails only because of a wanted row that cannot be told, and then with the fault of the
/// first of those; where each wanted row can be told there is a list, with as many records as rows.
pub proof fn only_damage_makes_a_list_fail<R: Told>(
    rows: Map<Seq<Seq<char>>, R::V>,
    wanted: spec_fn(Seq<Seq<char>>, R::V) -> bool,
    list: Result<Seq<<R::Record as View>::V>, Fault>,
)
    requires
        lists::<R>(rows, wanted, list),
    ensures
        list matches Err(fault) ==> exists|key: Seq<Seq<char>>| #[trigger]
            is_first_fault::<R>(rows, wanted, key, fault),
        (forall|key: Seq<Seq<char>>| #[trigger]
            rows.contains_key(key) && wanted(key, rows[key]) ==> R::tell(key, rows[key]) is Ok)
            ==> list is Ok,
        (exists|key: Seq<Seq<char>>| #[trigger]
            rows.contains_key(key) && wanted(key, rows[key]) && R::tell(key, rows[key]) is Err)
            ==> list is Err,
{
    let keys = choose|keys: Seq<Seq<Seq<char>>>| #[trigger]
        is_listing::<R>(rows, wanted, keys) && list == told::<R>(rows, keys);
    assert forall|key: Seq<Seq<char>>| #[trigger] keys.contains(key) <==> rows.contains_key(key)
        && wanted(key, rows[key]) by {
        assert(keys.to_set().contains(key) <==> keys_where(rows, wanted).contains(key));
    }
    lemma_told_each::<R>(rows, keys);
    if let Err(fault) = list {
        lemma_first_fault::<R>(rows, keys, fault);
        let a = choose|a: int|
            0 <= a < keys.len() && R::tell(#[trigger] keys[a], rows[keys[a]]) == Err::<
                <R::Record as View>::V,
                Fault,
            >(fault) && forall|b: int|
                0 <= b < a ==> R::tell(#[trigger] keys[b], rows[keys[b]]) is Ok;
        assert(keys.contains(keys[a]));
        assert forall|other: Seq<Seq<char>>| #[trigger]
            rows.contains_key(other) && wanted(other, rows[other]) && R::precedes(
                other,
                rows[other],
                keys[a],
                rows[keys[a]],
            ) implies R::tell(other, rows[other]) is Ok by {
            assert(keys.contains(other));
            let b = choose|b: int| 0 <= b < keys.len() && keys[b] == other;
            R::precedes_is_an_order(
                other,
                rows[other],
                keys[a],
                rows[keys[a]],
                other,
                rows[other],
            );
            if a < b {
                assert(R::precedes(keys[a], rows[keys[a]], keys[b], rows[keys[b]]));
            }
        }
        assert(is_first_fault::<R>(rows, wanted, keys[a], fault));
    }
    if let Ok(records) = list {
        assert forall|key: Seq<Seq<char>>| #[trigger]
            rows.contains_key(key) && wanted(key, rows[key]) implies R::tell(
            key,
            rows[key],
        ) is Ok by {
            assert(keys.contains(key));
            let a = choose|a: int| 0 <= a < keys.len() && keys[a] == key;
            assert(R::tell(keys[a], rows[keys[a]]) is Ok);
        }
    }
}

proof fn lemma_first_fault<R: Told>(
    rows: Map<Seq<Seq<char>>, R::V>,
    keys: Seq<Seq<Seq<char>>>,
    fault: Fault,
)
    requires
        told::<R>(rows, keys) == Err::<Seq<<R::Record as View>::V>, Fault>(fault),
    ensures
        exists|a: int|
            0 <= a < keys.len() && R::tell(#[trigger] keys[a], rows[keys[a]]) == Err::<
                <R::Record as View>::V,
                Fault,
            >(fault) && forall|b: int|
                0 <= b < a ==> R::tell(#[trigger] keys[b], rows[keys[b]]) is Ok,
    decreases keys.len(),
{
    let fewer = keys.drop_last();
    if told::<R>(rows, fewer) is Err {
        lemma_first_fault::<R>(rows, fewer, fault);
        let a = choose|a: int|
            0 <= a < fewer.len() && R::tell(#[trigger] fewer[a], rows[fewer[a]]) == Err::<
                <R::Record as View>::V,
                Fault,
            >(fault) && forall|b: int|
                0 <= b < a ==> R::tell(#[trigger] fewer[b], rows[fewer[b]]) is Ok;
        assert(keys[a] == fewer[a]);
        assert forall|b: int| 0 <= b < a implies R::tell(#[trigger] keys[b], rows[keys[b]]) is Ok by {
            assert(keys[b] == fewer[b]);
        }
    } else {
        lemma_told_each::<R>(rows, fewer);
        let a = keys.len() - 1;
        assert(keys[a] == keys.last());
        assert forall|b: int| 0 <= b < a implies R::tell(#[trigger] keys[b], rows[keys[b]]) is Ok by {
            assert(keys[b] == fewer[b]);
        }
    }
}

/// Tells the flagged rows, in the order they are listed in.
pub fn tell_flagged<R: Told>(
    rows: &Vec<R>,
    flags: &Vec<bool>,
    Ghost(wanted): Ghost<spec_fn(Seq<Seq<char>>, R::V) -> bool>,
) -> (list: Result<Vec<R::Record>, Error>)
    requires
        distinct_keys(rows@),
        flags@.len() == rows@.len(),
        forall|i: int|
            0 <= i < rows@.len() ==> #[trigger] flags@[i] == wanted(rows@[i].key(), rows@[i]@),
    ensures
        lists::<R>(contents(rows@), wanted, list_view(list)),
{
    let picks = pick(rows, flags, Ghost(wanted));
    let ghost keys = picked_keys(rows@, picks@);
    let mut list: Vec<R::Record> = Vec::new();
    assert(views(list@) =~= Seq::<<R::Record as View>::V>::empty());
    for i in 0..picks.len()
        invariant
            picks_rows(rows@, picks@),
            keys == picked_keys(rows@, picks@),
            forall|a: int|
                0 <= a < picks@.len() ==> contents(rows@)[keys[a]]
                    == rows@[#[trigger] picks@[a] as int]@,
            told::<R>(contents(rows@), keys.take(i as int)) == Ok::<
                Seq<<R::Record as View>::V>,
                Fault,
            >(views(list@)),
            is_listing::<R>(contents(rows@), wanted, keys),
    {
        proof {
            assert(keys.take(i + 1).drop_last() =~= keys.take(i as int));
            assert(keys.take(i + 1).last() == keys[i as int]);
            assert(contents(rows@)[keys[i as int]] == rows@[picks@[i as int] as int]@);
        }
        match rows[picks[i]].record() {
            Ok(record) => {
                let ghost before = views(list@);
                list.push(record);
                assert(views(list@) =~= before.push(record@));
            },
            Err(error) => {
                proof {
                    lemma_told_fault_stays::<R>(contents(rows@), keys, i + 1, error@);
                }
                return Err(error);
            },
        }
    }
    assert(keys.take(keys.len() as int) =~= keys);
    Ok(list)
}

/// A row of a log, whose place in listings rests on what it says and on when it came.
pub trait Logged: View + Ranked {
    /// A row that says `a` is listed before one that says `b`.
    spec fn precedes(a: Self::V, b: Self::V) -> bool;

    proof fn ahead_is_precedes(one: &Self, two: &Self)
        ensures
            one.ahead(two) == Self::precedes(one@, two@),
    ;
}

/// The places of the wanted rows of a log, each before the next: it precedes, or neither does and
/// it came first.
pub open spec fn is_log_listing<R: Logged>(
    rows: Seq<R::V>,
    wanted: spec_fn(R::V) -> bool,
    picks: Seq<int>,
) -> bool {
    &&& forall|a: int|
        0 <= a < picks.len() ==> 0 <= #[trigger] picks[a] < rows.len() && wanted(rows[picks[a]])
    &&& forall|i: int| 0 <= i < rows.len() && wanted(#[trigger] rows[i]) ==> picks.contains(i)
    &&& forall|a: int, b: int|
        #![trigger picks[a], picks[b]]
        0 <= a < b < picks.len() ==> R::precedes(rows[picks[a]], rows[picks[b]]) || (!R::precedes(
            rows[picks[b]],
            rows[picks[a]],
        ) && picks[a] < picks[b])
}

/// Places as integers.
pub open spec fn as_places(picks: Seq<usize>) -> Seq<int> {
    Seq::new(picks.len(), |a: int| picks[a] as int)
}

/// The wanted rows of a log, in the order they are listed in.
pub fn pick_logged<R: Logged>(
    rows: &Vec<R>,
    flags: &Vec<bool>,
    Ghost(wanted): Ghost<spec_fn(R::V) -> bool>,
) -> (picks: Vec<usize>)
    requires
        flags@.len() == rows@.len(),
        forall|i: int| 0 <= i < rows@.len() ==> #[trigger] flags@[i] == wanted(rows@[i]@),
    ensures
        picks_rows(rows@, picks@),
        is_log_listing::<R>(views(rows@), wanted, as_places(picks@)),
{
    let picks = arrange_flagged(rows, flags);
    proof {
        assert(rows.len() == rows@.len());
        let said = views(rows@);
        let places = as_places(picks@);
        assert forall|a: int| 0 <= a < places.len() implies 0 <= #[trigger] places[a] < said.len()
            && wanted(said[places[a]]) by {
            assert(picks@.contains(picks@[a]));
            assert(flags@[picks@[a] as int]);
        }
        assert forall|i: int|
            0 <= i < said.len() && wanted(#[trigger] said[i]) implies places.contains(i) by {
            assert(flags@[i]);
            assert((i as usize) as int == i);
            assert(picks@.contains(i as usize));
            let a = choose|a: int| 0 <= a < picks@.len() && picks@[a] == i as usize;
            assert(places[a] == i);
        }
        assert forall|a: int, b: int|
            #![trigger places[a], places[b]]
            0 <= a < b < places.len() implies R::precedes(said[places[a]], said[places[b]]) || (
        !R::precedes(said[places[b]], said[places[a]]) && places[a] < places[b]) by {
            assert(comes_first(rows@, picks@[a] as int, picks@[b] as int));
            R::ahead_is_precedes(&rows@[places[a]], &rows@[places[b]]);
            R::ahead_is_precedes(&rows@[places[b]], &rows@[places[a]]);
        }
    }
    picks
}

} // verus!
