//! Tables whose rows are told apart by a key.

use vstd::prelude::*;

use crate::text::same_text;

verus! {

/// A row of a table with a text for a key.
pub trait Row: View + Sized {
    /// The key of a row.
    spec fn key(row: Self::V) -> Seq<char>;

    /// The key of this row.
    fn key_text(&self) -> (r: &str)
        ensures
            r@ == Self::key(self@),
    ;
}

/// What the rows say.
pub open spec fn views<R: View>(rows: Seq<R>) -> Seq<R::V> {
    rows.map_values(|r: R| r@)
}

/// No two rows have the same key.
pub open spec fn keys_unique<R: Row>(rows: Seq<R::V>) -> bool {
    forall|i: int, j: int|
        0 <= i < rows.len() && 0 <= j < rows.len() && i != j ==> R::key(#[trigger] rows[i])
            != R::key(#[trigger] rows[j])
}

/// Row `i` exists and has the key `key`.
pub open spec fn holds_at<R: Row>(rows: Seq<R::V>, key: Seq<char>, i: int) -> bool {
    0 <= i < rows.len() && R::key(rows[i]) == key
}

/// The rows, found by their keys.
pub open spec fn by_key<R: Row>(rows: Seq<R::V>) -> Map<Seq<char>, R::V> {
    Map::new(
        |key: Seq<char>| exists|i: int| holds_at::<R>(rows, key, i),
        |key: Seq<char>| rows[choose|i: int| holds_at::<R>(rows, key, i)],
    )
}

/// A row is found by its key.
pub proof fn lemma_found<R: Row>(rows: Seq<R::V>, i: int)
    requires
        keys_unique::<R>(rows),
        0 <= i < rows.len(),
    ensures
        by_key::<R>(rows).contains_key(R::key(rows[i])),
        by_key::<R>(rows)[R::key(rows[i])] == rows[i],
{
    let key = R::key(rows[i]);
    assert(holds_at::<R>(rows, key, i));
    let j = choose|j: int| holds_at::<R>(rows, key, j);
    assert(holds_at::<R>(rows, key, j));
}

/// What is found by a key is a row with that key.
pub proof fn lemma_held<R: Row>(rows: Seq<R::V>, key: Seq<char>) -> (i: int)
    requires
        by_key::<R>(rows).contains_key(key),
    ensures
        holds_at::<R>(rows, key, i),
        by_key::<R>(rows)[key] == rows[i],
{
    choose|i: int| holds_at::<R>(rows, key, i)
}

/// A row with a new key, put at the end, is added to what is found.
pub proof fn lemma_push<R: Row>(rows: Seq<R::V>, row: R::V)
    requires
        keys_unique::<R>(rows),
        !by_key::<R>(rows).contains_key(R::key(row)),
    ensures
        keys_unique::<R>(rows.push(row)),
        by_key::<R>(rows.push(row)) == by_key::<R>(rows).insert(R::key(row), row),
{
    let longer = rows.push(row);
    assert forall|i: int| 0 <= i < rows.len() implies R::key(#[trigger] rows[i]) != R::key(
        row,
    ) by {
        assert(holds_at::<R>(rows, R::key(rows[i]), i));
    }
    assert(keys_unique::<R>(longer));
    let before = by_key::<R>(rows);
    let after = by_key::<R>(longer);
    let expected = before.insert(R::key(row), row);
    assert forall|key: Seq<char>| after.contains_key(key) == expected.contains_key(key) by {
        if after.contains_key(key) {
            let i = lemma_held::<R>(longer, key);
            if i < rows.len() {
                assert(holds_at::<R>(rows, key, i));
            }
        }
        if expected.contains_key(key) {
            if key == R::key(row) {
                assert(holds_at::<R>(longer, key, rows.len() as int));
            } else {
                let i = lemma_held::<R>(rows, key);
                assert(holds_at::<R>(longer, key, i));
            }
        }
    }
    assert forall|key: Seq<char>| #[trigger] after.contains_key(key) implies after[key]
        == expected[key] by {
        let i = lemma_held::<R>(longer, key);
        if i < rows.len() {
            lemma_found::<R>(rows, i);
        }
    }
    assert(after =~= expected);
}

/// A row that is replaced by one with the same key is replaced in what is found.
pub proof fn lemma_update<R: Row>(rows: Seq<R::V>, at: int, row: R::V)
    requires
        keys_unique::<R>(rows),
        0 <= at < rows.len(),
        R::key(rows[at]) == R::key(row),
    ensures
        keys_unique::<R>(rows.update(at, row)),
        by_key::<R>(rows.update(at, row)) == by_key::<R>(rows).insert(R::key(row), row),
{
    let changed = rows.update(at, row);
    assert forall|i: int, j: int|
        0 <= i < changed.len() && 0 <= j < changed.len() && i != j implies R::key(
        #[trigger] changed[i],
    ) != R::key(#[trigger] changed[j]) by {
        assert(R::key(changed[i]) == R::key(rows[i]));
        assert(R::key(changed[j]) == R::key(rows[j]));
    }
    let after = by_key::<R>(changed);
    let expected = by_key::<R>(rows).insert(R::key(row), row);
    lemma_found::<R>(rows, at);
    assert forall|key: Seq<char>| after.contains_key(key) == expected.contains_key(key) by {
        if after.contains_key(key) {
            let i = lemma_held::<R>(changed, key);
            assert(holds_at::<R>(rows, key, i));
        }
        if expected.contains_key(key) {
            let i = lemma_held::<R>(rows, key);
            assert(holds_at::<R>(changed, key, i));
        }
    }
    assert forall|key: Seq<char>| #[trigger] after.contains_key(key) implies after[key]
        == expected[key] by {
        let i = lemma_held::<R>(changed, key);
        if i != at {
            lemma_found::<R>(rows, i);
        }
    }
    assert(after =~= expected);
}

/// As many rows are found by their keys as there are.
pub proof fn lemma_count<R: Row>(rows: Seq<R::V>)
    requires
        keys_unique::<R>(rows),
    ensures
        by_key::<R>(rows).dom().finite(),
        by_key::<R>(rows).dom().len() == rows.len(),
    decreases rows.len(),
{
    if rows.len() == 0 {
        assert(by_key::<R>(rows).dom() =~= Set::empty());
    } else {
        let shorter = rows.drop_last();
        let last = rows.last();
        assert forall|i: int, j: int|
            0 <= i < shorter.len() && 0 <= j < shorter.len() && i != j implies R::key(
            #[trigger] shorter[i],
        ) != R::key(#[trigger] shorter[j]) by {
            assert(shorter[i] == rows[i] && shorter[j] == rows[j]);
        }
        lemma_count::<R>(shorter);
        if by_key::<R>(shorter).contains_key(R::key(last)) {
            let i = lemma_held::<R>(shorter, R::key(last));
            assert(shorter[i] == rows[i]);
            assert(rows[rows.len() - 1] == last);
        }
        lemma_push::<R>(shorter, last);
        assert(shorter.push(last) =~= rows);
        assert(by_key::<R>(rows).dom() =~= by_key::<R>(shorter).dom().insert(R::key(last)));
    }
}

/// Where the row with a key stands.
pub fn find<R: Row>(rows: &Vec<R>, key: &str) -> (r: Option<usize>)
    ensures
        match r {
            Some(i) => holds_at::<R>(views(rows@), key@, i as int),
            None => !by_key::<R>(views(rows@)).contains_key(key@),
        },
{
    let mut i: usize = 0;
    while i < rows.len()
        invariant
            i <= rows.len(),
            forall|j: int| 0 <= j < i ==> R::key(#[trigger] views(rows@)[j]) != key@,
        decreases rows.len() - i,
    {
        if same_text(rows[i].key_text(), key) {
            return Some(i);
        }
        i = i + 1;
    }
    None
}

/// Whether no two rows have the same key.
pub fn are_keys_unique<R: Row>(rows: &Vec<R>) -> (r: bool)
    ensures
        r == keys_unique::<R>(views(rows@)),
{
    let ghost said = views(rows@);
    let mut i: usize = 0;
    while i < rows.len()
        invariant
            i <= rows.len(),
            said == views(rows@),
            forall|a: int, b: int|
                0 <= a < b < i ==> R::key(#[trigger] said[a]) != R::key(#[trigger] said[b]),
        decreases rows.len() - i,
    {
        let mut j: usize = 0;
        while j < i
            invariant
                j <= i < rows.len(),
                said == views(rows@),
                forall|a: int| 0 <= a < j ==> R::key(#[trigger] said[a]) != R::key(said[i as int]),
            decreases i - j,
        {
            if same_text(rows[j].key_text(), rows[i].key_text()) {
                assert(R::key(said[j as int]) == R::key(said[i as int]));
                return false;
            }
            j = j + 1;
        }
        i = i + 1;
    }
    true
}

/// Rows are looked at one by one, in their order.
pub proof fn rows_are_looked_at_one_by_one<R: View>(rows: Seq<R>, i: int)
    requires
        0 <= i < rows.len(),
    ensures
        views(rows).len() == rows.len(),
        views(rows)[i] == rows[i]@,
{
}

/// Where no two rows have the same key, a key leads to the row that has it, and to nothing
/// where no row has it.
pub proof fn keys_lead_to_their_rows<R: Row>(rows: Seq<R::V>, key: Seq<char>, i: int)
    requires
        keys_unique::<R>(rows),
    ensures
        0 <= i < rows.len() && R::key(rows[i]) == key ==> by_key::<R>(rows).contains_key(key)
            && by_key::<R>(rows)[key] == rows[i],
        (forall|j: int| 0 <= j < rows.len() ==> R::key(#[trigger] rows[j]) != key) ==> !by_key::<R>(
            rows,
        ).contains_key(key),
{
    if 0 <= i < rows.len() && R::key(rows[i]) == key {
        lemma_found::<R>(rows, i);
    }
    if by_key::<R>(rows).contains_key(key) {
        let j = lemma_held::<R>(rows, key);
        assert(R::key(rows[j]) == key);
    }
}

} // verus!
