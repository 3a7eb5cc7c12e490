//! Tables: rows found by a key of text columns, at most one row for each key.
use vstd::prelude::*;

use crate::text::texts;

verus! {

/// What a list of references to strings says.
pub open spec fn ref_texts(list: Seq<&String>) -> Seq<Seq<char>> {
    Seq::new(list.len(), |i: int| list[i]@)
}

/// A row that is found by the texts of its key columns.
pub trait Row: View + Sized {
    /// The texts of the key columns.
    spec fn key(&self) -> Seq<Seq<char>>;

    /// The key columns.
    fn key_columns(&self) -> (columns: Vec<&String>)
        ensures
            ref_texts(columns@) == self.key(),
    ;
}

/// `key` begins with `prefix`.
pub open spec fn under(prefix: Seq<Seq<char>>, key: Seq<Seq<char>>) -> bool {
    prefix.len() <= key.len() && key.take(prefix.len() as int) == prefix
}

/// No two rows share a key.
pub open spec fn distinct_keys<R: Row>(rows: Seq<R>) -> bool {
    forall|i: int, j: int|
        0 <= i < j < rows.len() ==> #[trigger] rows[i].key() != #[trigger] rows[j].key()
}

/// The row at `i` has the key.
pub open spec fn keyed<R: Row>(rows: Seq<R>, i: int, key: Seq<Seq<char>>) -> bool {
    0 <= i < rows.len() && rows[i].key() == key
}

/// The rows by their keys.
pub open spec fn contents<R: Row>(rows: Seq<R>) -> Map<Seq<Seq<char>>, R::V> {
    Map::new(
        |key: Seq<Seq<char>>| exists|i: int| keyed(rows, i, key),
        |key: Seq<Seq<char>>| rows[choose|i: int| keyed(rows, i, key)]@,
    )
}

/// A row stands in the contents under its key.
pub proof fn lemma_contents_at<R: Row>(rows: Seq<R>, i: int)
    requires
        distinct_keys(rows),
        0 <= i < rows.len(),
    ensures
        contents(rows).contains_key(rows[i].key()),
        contents(rows)[rows[i].key()] == rows[i]@,
{
    let key = rows[i].key();
    assert(keyed(rows, i, key));
    let j = choose|j: int| keyed(rows, j, key);
    if j < i {
        assert(rows[j].key() != rows[i].key());
    } else if i < j {
        assert(rows[i].key() != rows[j].key());
    }
}

/// What stands in the contents under a key is a row with that key.
pub proof fn lemma_contents_from<R: Row>(rows: Seq<R>, key: Seq<Seq<char>>) -> (i: int)
    requires
        distinct_keys(rows),
        contents(rows).contains_key(key),
    ensures
        keyed(rows, i, key),
        contents(rows)[key] == rows[i]@,
{
    choose|i: int| keyed(rows, i, key)
}

/// A row with a fresh key joins the contents.
pub proof fn lemma_contents_push<R: Row>(rows: Seq<R>, row: R)
    requires
        distinct_keys(rows),
        !contents(rows).contains_key(row.key()),
    ensures
        distinct_keys(rows.push(row)),
        contents(rows.push(row)) == contents(rows).insert(row.key(), row@),
{
    let more = rows.push(row);
    assert forall|i: int, j: int| 0 <= i < j < more.len() implies #[trigger] more[i].key()
        != #[trigger] more[j].key() by {
        if j == rows.len() {
            assert(more[i] == rows[i]);
            lemma_contents_at(rows, i);
        }
    }
    assert forall|key: Seq<Seq<char>>|
        contents(more).contains_key(key) == contents(rows).insert(row.key(), row@).contains_key(
            key,
        ) by {
        if contents(rows).contains_key(key) {
            let i = lemma_contents_from(rows, key);
            assert(more[i] == rows[i]);
            assert(keyed(more, i, key));
        }
        if key == row.key() {
            assert(keyed(more, rows.len() as int, key));
        }
        if contents(more).contains_key(key) {
            let i = lemma_contents_from(more, key);
            if i < rows.len() {
                assert(keyed(rows, i, key));
            }
        }
    }
    assert forall|key: Seq<Seq<char>>| contents(more).contains_key(key) implies contents(more)[key]
        == contents(rows).insert(row.key(), row@)[key] by {
        let i = lemma_contents_from(more, key);
        if i < rows.len() {
            lemma_contents_at(rows, i);
            assert(keyed(rows, i, key));
        }
    }
    assert(contents(more) =~= contents(rows).insert(row.key(), row@));
}

/// A row leaves the contents, and another one may take its place.
pub proof fn lemma_contents_swap_out<R: Row>(rows: Seq<R>, less: Seq<R>, at: int)
    requires
        distinct_keys(rows),
        0 <= at < rows.len(),
        less == rows.update(at, rows.last()).drop_last(),
    ensures
        distinct_keys(less),
        contents(less) == contents(rows).remove(rows[at].key()),
{
    let origin = |i: int| -> int
        {
            if i == at {
                rows.len() - 1
            } else {
                i
            }
        };
    assert forall|i: int| 0 <= i < less.len() implies less[i] == #[trigger] rows[origin(i)] by {}
    assert forall|i: int, j: int| 0 <= i < j < less.len() implies #[trigger] less[i].key()
        != #[trigger] less[j].key() by {
        assert(less[i] == rows[origin(i)]);
        assert(less[j] == rows[origin(j)]);
        assert(rows[origin(i)].key() != rows[origin(j)].key()) by {
            if origin(i) < origin(j) {
            } else {
                assert(rows[origin(j)].key() != rows[origin(i)].key());
            }
        }
    }
    assert forall|key: Seq<Seq<char>>|
        contents(less).contains_key(key) == contents(rows).remove(rows[at].key()).contains_key(
            key,
        ) by {
        if contents(less).contains_key(key) {
            let i = lemma_contents_from(less, key);
            assert(less[i] == rows[origin(i)]);
            assert(keyed(rows, origin(i), key));
            if key == rows[at].key() {
                if origin(i) < at {
                    assert(rows[origin(i)].key() != rows[at].key());
                } else {
                    assert(rows[at].key() != rows[origin(i)].key());
                }
            }
        }
        if contents(rows).contains_key(key) && key != rows[at].key() {
            let i = lemma_contents_from(rows, key);
            if i == rows.len() - 1 {
                assert(less[at] == rows[origin(at)]);
                assert(keyed(less, at, key));
            } else {
                assert(less[i] == rows[origin(i)]);
                assert(keyed(less, i, key));
            }
        }
    }
    assert forall|key: Seq<Seq<char>>| contents(less).contains_key(key) implies contents(less)[key]
        == contents(rows).remove(rows[at].key())[key] by {
        let i = lemma_contents_from(less, key);
        assert(less[i] == rows[origin(i)]);
        lemma_contents_at(rows, origin(i));
        assert(keyed(rows, origin(i), key));
    }
    assert(contents(less) =~= contents(rows).remove(rows[at].key()));
}

/// The keys of the rows that are wanted.
pub open spec fn keys_where<V>(
    rows: Map<Seq<Seq<char>>, V>,
    wanted: spec_fn(Seq<Seq<char>>, V) -> bool,
) -> Set<Seq<Seq<char>>> {
    rows.dom().filter(|key: Seq<Seq<char>>| wanted(key, rows[key]))
}

/// How many rows are wanted.
pub open spec fn count_rows<R: Row>(
    rows: Seq<R>,
    wanted: spec_fn(Seq<Seq<char>>, R::V) -> bool,
) -> nat
    decreases rows.len(),
{
    if rows.len() == 0 {
        0
    } else {
        count_rows(rows.drop_last(), wanted) + if wanted(rows.last().key(), rows.last()@) {
            1nat
        } else {
            0nat
        }
    }
}

/// Among the first rows no more are wanted than among all.
pub proof fn lemma_count_of_first<R: Row>(
    rows: Seq<R>,
    wanted: spec_fn(Seq<Seq<char>>, R::V) -> bool,
    i: int,
)
    requires
        0 <= i <= rows.len(),
    ensures
        count_rows(rows.take(i), wanted) <= count_rows(rows, wanted),
    decreases rows.len() - i,
{
    if i == rows.len() {
        assert(rows.take(i) =~= rows);
    } else {
        assert(rows.take(i + 1).drop_last() =~= rows.take(i));
        lemma_count_of_first(rows, wanted, i + 1);
    }
}

/// Counting rows counts keys.
pub proof fn lemma_count_rows<R: Row>(
    rows: Seq<R>,
    wanted: spec_fn(Seq<Seq<char>>, R::V) -> bool,
)
    requires
        distinct_keys(rows),
    ensures
        keys_where(contents(rows), wanted).finite(),
        keys_where(contents(rows), wanted).len() == count_rows(rows, wanted),
        count_rows(rows, wanted) <= rows.len(),
    decreases rows.len(),
{
    if rows.len() == 0 {
        assert(keys_where(contents(rows), wanted) =~= Set::empty()) by {
            assert forall|key: Seq<Seq<char>>| !contents(rows).contains_key(key) by {
                if contents(rows).contains_key(key) {
                    let i = lemma_contents_from(rows, key);
                }
            }
        }
    } else {
        let fewer = rows.drop_last();
        let row = rows.last();
        assert(distinct_keys(fewer)) by {
            assert forall|i: int, j: int| 0 <= i < j < fewer.len() implies #[trigger] fewer[i].key()
                != #[trigger] fewer[j].key() by {
                assert(rows[i].key() != rows[j].key());
            }
        }
        lemma_count_rows(fewer, wanted);
        assert(!contents(fewer).contains_key(row.key())) by {
            if contents(fewer).contains_key(row.key()) {
                let i = lemma_contents_from(fewer, row.key());
                assert(rows[i].key() != rows[rows.len() - 1].key());
            }
        }
        lemma_contents_push(fewer, row);
        assert(fewer.push(row) =~= rows);
        let before = keys_where(contents(fewer), wanted);
        let after = keys_where(contents(rows), wanted);
        if wanted(row.key(), row@) {
            assert(after =~= before.insert(row.key()));
        } else {
            assert(after =~= before);
        }
    }
}

/// There are as many rows as keys.
pub proof fn lemma_rows_are_keys<R: Row>(rows: Seq<R>)
    requires
        distinct_keys(rows),
    ensures
        contents(rows).dom().finite(),
        contents(rows).dom().len() == rows.len(),
{
    let every = |key: Seq<Seq<char>>, row: R::V| true;
    lemma_count_rows(rows, every);
    assert(keys_where(contents(rows), every) =~= contents(rows).dom());
    lemma_every_row_counts(rows, every);
}

proof fn lemma_every_row_counts<R: Row>(
    rows: Seq<R>,
    wanted: spec_fn(Seq<Seq<char>>, R::V) -> bool,
)
    requires
        forall|key: Seq<Seq<char>>, row: R::V| #[trigger] wanted(key, row),
    ensures
        count_rows(rows, wanted) == rows.len(),
    decreases rows.len(),
{
    if rows.len() > 0 {
        lemma_every_row_counts(rows.drop_last(), wanted);
    }
}

/// A table of rows.
#[derive(Debug)]
pub struct Table<R> {
    rows: Vec<R>,
}

impl<R: Row> View for Table<R> {
    type V = Map<Seq<Seq<char>>, R::V>;

    /// The rows by their keys.
    open spec fn view(&self) -> Map<Seq<Seq<char>>, R::V> {
        contents(self.listed())
    }
}

/// Whether the row's key is `key`.
fn has_key<R: Row>(row: &R, key: &Vec<String>) -> (found: bool)
    ensures
        found == (row.key() == texts(key@)),
{
    let columns = row.key_columns();
    if columns.len() != key.len() {
        assert(ref_texts(columns@).len() != texts(key@).len());
        return false;
    }
    for i in 0..key.len()
        invariant
            ref_texts(columns@) == row.key(),
            columns@.len() == key@.len(),
            forall|j: int| 0 <= j < i ==> columns@[j]@ == key@[j]@,
    {
        if *columns[i] != key[i] {
            assert(row.key()[i as int] != texts(key@)[i as int]);
            return false;
        }
    }
    assert(row.key() =~= texts(key@));
    true
}

/// Whether the row's key begins with `prefix`.
pub fn has_prefix<R: Row>(row: &R, prefix: &Vec<String>) -> (found: bool)
    ensures
        found == under(texts(prefix@), row.key()),
{
    let columns = row.key_columns();
    if columns.len() < prefix.len() {
        return false;
    }
    for i in 0..prefix.len()
        invariant
            ref_texts(columns@) == row.key(),
            columns@.len() >= prefix@.len(),
            forall|j: int| 0 <= j < i ==> columns@[j]@ == prefix@[j]@,
    {
        if *columns[i] != prefix[i] {
            assert(row.key().take(prefix@.len() as int)[i as int] != texts(prefix@)[i as int]);
            return false;
        }
    }
    assert(row.key().take(prefix@.len() as int) =~= texts(prefix@));
    true
}

impl<R: Row> Table<R> {
    /// The rows in the order they are held in.
    pub closed spec fn listed(&self) -> Seq<R> {
        self.rows@
    }

    /// No two rows share a key.
    pub open spec fn wf(&self) -> bool {
        distinct_keys(self.listed())
    }

    /// A table without rows.
    pub fn new() -> (table: Self)
        ensures
            table.wf(),
            table@ == Map::<Seq<Seq<char>>, R::V>::empty(),
    {
        let table = Table { rows: Vec::new() };
        assert(table@ =~= Map::empty());
        table
    }

    /// The rows.
    pub fn rows(&self) -> (rows: &Vec<R>)
        ensures
            rows@ == self.listed(),
    {
        &self.rows
    }

    /// How many rows there are.
    pub fn len(&self) -> (count: usize)
        requires
            self.wf(),
        ensures
            count == self@.dom().len(),
    {
        proof {
            lemma_rows_are_keys(self.rows@);
        }
        self.rows.len()
    }

    fn position(&self, key: &Vec<String>) -> (at: Option<usize>)
        requires
            self.wf(),
        ensures
            match at {
                Some(i) => keyed(self.rows@, i as int, texts(key@)) && self@.contains_key(
                    texts(key@),
                ),
                None => !self@.contains_key(texts(key@)),
            },
    {
        for i in 0..self.rows.len()
            invariant
                forall|j: int| 0 <= j < i ==> #[trigger] self.rows@[j].key() != texts(key@),
        {
            if has_key(&self.rows[i], key) {
                assert(keyed(self.rows@, i as int, texts(key@)));
                return Some(i);
            }
        }
        proof {
            if self@.contains_key(texts(key@)) {
                let i = lemma_contents_from(self.rows@, texts(key@));
                assert(self.rows@[i].key() != texts(key@));
            }
        }
        None
    }

    /// The row with that key, if there is one.
    pub fn get(&self, key: &Vec<String>) -> (row: Option<&R>)
        requires
            self.wf(),
        ensures
            match row {
                Some(found) => self@.contains_key(texts(key@)) && found@ == self@[texts(key@)]
                    && found.key() == texts(key@),
                None => !self@.contains_key(texts(key@)),
            },
    {
        match self.position(key) {
            Some(i) => {
                proof {
                    lemma_contents_at(self.rows@, i as int);
                }
                Some(&self.rows[i])
            },
            None => None,
        }
    }

    /// Takes the row with that key out of the table, if there is one.
    pub fn take(&mut self, key: &Vec<String>) -> (row: Option<R>)
        requires
            old(self).wf(),
        ensures
            final(self).wf(),
            match row {
                Some(found) => {
                    &&& old(self)@.contains_key(texts(key@))
                    &&& found@ == old(self)@[texts(key@)]
                    &&& found.key() == texts(key@)
                    &&& final(self)@ == old(self)@.remove(texts(key@))
                    &&& final(self).listed().len() == old(self).listed().len() - 1
                },
                None => !old(self)@.contains_key(texts(key@)) && *final(self) == *old(self),
            },
    {
        match self.position(key) {
            Some(i) => {
                let ghost before = self.rows@;
                proof {
                    lemma_contents_at(before, i as int);
                }
                let row = self.rows.swap_remove(i);
                proof {
                    assert(self.rows@ =~= before.update(i as int, before.last()).drop_last());
                    lemma_contents_swap_out(before, self.rows@, i as int);
                }
                Some(row)
            },
            None => None,
        }
    }

    /// Puts a row into the table, in place of the one with its key if there is one.
    pub fn put(&mut self, row: R)
        requires
            old(self).wf(),
        ensures
            final(self).wf(),
            final(self)@ == old(self)@.insert(row.key(), row@),
            final(self).listed().len() <= old(self).listed().len() + 1,
    {
        let mut i: usize = 0;
        while i < self.rows.len()
            invariant
                self.wf(),
                i <= self.rows@.len(),
                self@ == old(self)@,
                self.rows@.len() == old(self).listed().len(),
                forall|j: int| 0 <= j < i ==> #[trigger] self.rows@[j].key() != row.key(),
            decreases self.rows@.len() - i,
        {
            let columns = self.rows[i].key_columns();
            let wanted = row.key_columns();
            if same_columns(&columns, &wanted) {
                let ghost before = self.rows@;
                let gone = self.rows.swap_remove(i);
                proof {
                    assert(self.rows@ =~= before.update(i as int, before.last()).drop_last());
                    lemma_contents_swap_out(before, self.rows@, i as int);
                    lemma_contents_push(self.rows@, row);
                    assert(contents(before).remove(row.key()).insert(row.key(), row@)
                        =~= contents(before).insert(row.key(), row@));
                }
                self.rows.push(row);
                return;
            }
            i = i + 1;
        }
        proof {
            assert(!contents(self.rows@).contains_key(row.key())) by {
                if contents(self.rows@).contains_key(row.key()) {
                    let j = lemma_contents_from(self.rows@, row.key());
                    assert(self.rows@[j].key() != row.key());
                }
            }
            lemma_contents_push(self.rows@, row);
        }
        self.rows.push(row);
    }

    /// Drops every row whose key begins with `prefix`.
    pub fn drop_under(&mut self, prefix: &Vec<String>)
        requires
            old(self).wf(),
        ensures
            final(self).wf(),
            final(self)@ == without(old(self)@, texts(prefix@)),
    {
        let ghost whole = self.rows@;
        let mut i: usize = 0;
        while i < self.rows.len()
            invariant
                self.wf(),
                i <= self.rows@.len(),
                without(self@, texts(prefix@)) == without(old(self)@, texts(prefix@)),
                forall|j: int|
                    0 <= j < i ==> !under(texts(prefix@), #[trigger] self.rows@[j].key()),
            decreases self.rows@.len() - i,
        {
            if has_prefix(&self.rows[i], prefix) {
                let ghost before = self.rows@;
                let gone = self.rows.swap_remove(i);
                proof {
                    assert(self.rows@ =~= before.update(i as int, before.last()).drop_last());
                    lemma_contents_swap_out(before, self.rows@, i as int);
                    assert(without(contents(self.rows@), texts(prefix@)) =~= without(
                        contents(before),
                        texts(prefix@),
                    ));
                }
            } else {
                i = i + 1;
            }
        }
        proof {
            assert forall|key: Seq<Seq<char>>| self@.contains_key(key) implies !under(
                texts(prefix@),
                key,
            ) by {
                let j = lemma_contents_from(self.rows@, key);
                assert(!under(texts(prefix@), self.rows@[j].key()));
            }
            assert(without(self@, texts(prefix@)) =~= self@);
        }
    }
}

/// The rows whose keys do not begin with `prefix`.
pub open spec fn without<V>(rows: Map<Seq<Seq<char>>, V>, prefix: Seq<Seq<char>>) -> Map<
    Seq<Seq<char>>,
    V,
> {
    Map::new(
        |key: Seq<Seq<char>>| rows.contains_key(key) && !under(prefix, key),
        |key: Seq<Seq<char>>| rows[key],
    )
}

fn same_columns(a: &Vec<&String>, b: &Vec<&String>) -> (same: bool)
    ensures
        same == (ref_texts(a@) == ref_texts(b@)),
{
    if a.len() != b.len() {
        assert(ref_texts(a@).len() != ref_texts(b@).len());
        return false;
    }
    for i in 0..a.len()
        invariant
            a@.len() == b@.len(),
            forall|j: int| 0 <= j < i ==> a@[j]@ == b@[j]@,
    {
        if *a[i] != *b[i] {
            assert(ref_texts(a@)[i as int] != ref_texts(b@)[i as int]);
            return false;
        }
    }
    assert(ref_texts(a@) =~= ref_texts(b@));
    true
}

} // verus!
