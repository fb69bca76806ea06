//! Rows of a palette: their order, their identity, their ranking against a
//! query, and the selection among them.

use vstd::arithmetic::div_mod::{
    lemma_fundamental_div_mod, lemma_fundamental_div_mod_converse, lemma_small_mod,
};
use vstd::prelude::*;
use vstd::set_lib::lemma_len_subset;

use crate::lists::{lemma_contains_push, reversed};
use crate::palette::fuzzy::{
    fuzzy_score, is_scorable, law_empty_query_matches_all, law_typing_narrows, scorable, score,
};
use crate::text::{
    lemma_text_less_asymmetric, lemma_text_less_irreflexive, lemma_text_less_total,
    lemma_text_less_transitive, lemma_views_empty, lemma_views_push, less_text, same_text,
    text_at_most, text_less, views,
};

verus! {

/// Something a palette lists: it has a name, and it stands for a command.
pub trait PaletteRow: View + Sized {
    /// The name of a row.
    spec fn row_name(row: Self::V) -> Seq<char>;

    /// Two rows run the same command.
    spec fn same_command(a: Self::V, b: Self::V) -> bool;

    fn name_text(&self) -> (r: &str)
        ensures
            r@ == Self::row_name(self@),
    ;

    fn runs_same_command(&self, other: &Self) -> (r: bool)
        ensures
            r == Self::same_command(self@, other@),
    ;
}

/// The names of the rows.
pub open spec fn names_of<T: PaletteRow>(rows: Seq<T::V>) -> Seq<Seq<char>> {
    Seq::new(rows.len(), |i: int| T::row_name(rows[i]))
}

// --- order ------------------------------------------------------------------------

/// `row` among rows in name order, after those whose name is not greater.
pub open spec fn insert_by_name<T: PaletteRow>(sorted: Seq<T::V>, row: T::V) -> Seq<T::V>
    decreases sorted.len(),
{
    if sorted.len() > 0 && text_less(T::row_name(row), T::row_name(sorted.last())) {
        insert_by_name::<T>(sorted.drop_last(), row).push(sorted.last())
    } else {
        sorted.push(row)
    }
}

/// The rows in name order; rows of one name keep their order.
pub open spec fn by_name<T: PaletteRow>(rows: Seq<T::V>) -> Seq<T::V>
    decreases rows.len(),
{
    if rows.len() == 0 {
        Seq::empty()
    } else {
        insert_by_name::<T>(by_name::<T>(rows.drop_last()), rows.last())
    }
}

proof fn lemma_insert_at<T: PaletteRow>(sorted: Seq<T::V>, row: T::V, p: int)
    requires
        0 <= p <= sorted.len(),
        forall|k: int|
            p <= k < sorted.len() ==> text_less(
                T::row_name(row),
                T::row_name(#[trigger] sorted[k]),
            ),
        p > 0 ==> !text_less(T::row_name(row), T::row_name(sorted[p - 1])),
    ensures
        insert_by_name::<T>(sorted, row) == sorted.insert(p, row),
    decreases sorted.len() - p,
{
    if p == sorted.len() {
        assert(sorted.insert(p, row) =~= sorted.push(row));
        if sorted.len() > 0 {
            assert(sorted.last() == sorted[p - 1]);
        }
    } else {
        assert(sorted.last() == sorted[sorted.len() - 1]);
        lemma_insert_at::<T>(sorted.drop_last(), row, p);
        assert(sorted.drop_last().insert(p, row).push(sorted.last()) =~= sorted.insert(p, row));
    }
}

/// The last of the items in reverse is the next one to come.
proof fn lemma_take_next<T: View>(rest: Seq<T>, all: Seq<T::V>, done: int)
    requires
        0 <= done < all.len(),
        views(rest) == all.skip(done).reverse(),
    ensures
        rest.len() > 0,
        rest.last()@ == all[done],
        views(rest.drop_last()) == all.skip(done + 1).reverse(),
        all.take(done + 1).drop_last() == all.take(done),
        all.take(done + 1).last() == all[done],
{
    let coming = all.skip(done + 1).reverse();
    assert(all.skip(done).reverse() =~= coming.push(all[done]));
    assert(views(rest).len() == rest.len());
    assert(views(rest).last() == rest.last()@);
    assert(views(rest.drop_last()) =~= views(rest).drop_last());
    assert(coming.push(all[done]).drop_last() =~= coming);
    assert(all.take(done + 1).drop_last() =~= all.take(done));
}

/// Put the rows in name order.
pub fn sort_by_name<T: PaletteRow>(rows: Vec<T>) -> (r: Vec<T>)
    ensures
        views(r@) == by_name::<T>(views(rows@)),
{
    let ghost all = views(rows@);
    let mut rest = reversed(rows);
    let mut out: Vec<T> = Vec::new();
    proof {
        lemma_views_empty::<T>();
        assert(all.take(0) =~= Seq::<T::V>::empty());
    }
    let ghost mut done: int = 0;
    while rest.len() > 0
        invariant
            0 <= done <= all.len(),
            rest@.len() == all.len() - done,
            views(rest@) == all.skip(done).reverse(),
            views(out@) == by_name::<T>(all.take(done)),
        decreases rest@.len(),
    {
        let ghost before = rest@;
        if let Some(row) = rest.pop() {
            proof {
                lemma_take_next(before, all, done);
            }
            let mut p: usize = out.len();
            while p > 0 && less_text(row.name_text(), out[p - 1].name_text())
                invariant
                    p <= out@.len(),
                    forall|k: int|
                        p <= k < out@.len() ==> text_less(
                            T::row_name(row@),
                            T::row_name(#[trigger] views(out@)[k]),
                        ),
                decreases p,
            {
                p = p - 1;
                assert(views(out@)[p as int] == out@[p as int]@);
            }
            proof {
                let sorted = views(out@);
                if p > 0 {
                    assert(sorted[p - 1] == out@[p - 1]@);
                }
                lemma_insert_at::<T>(sorted, row@, p as int);
                assert(views(out@.insert(p as int, row)) =~= sorted.insert(p as int, row@));
            }
            out.insert(p, row);
            proof {
                done = done + 1;
            }
        }
    }
    assert(all.take(done) =~= all);
    out
}

/// The names do not decrease.
pub open spec fn in_name_order<T: PaletteRow>(rows: Seq<T::V>) -> bool {
    forall|i: int, j: int|
        0 <= i < j < rows.len() ==> text_at_most(
            T::row_name(#[trigger] rows[i]),
            T::row_name(#[trigger] rows[j]),
        )
}

proof fn lemma_at_most_transitive(a: Seq<char>, b: Seq<char>, c: Seq<char>)
    requires
        text_at_most(a, b),
        text_at_most(b, c),
    ensures
        text_at_most(a, c),
{
    if text_less(c, a) {
        lemma_text_less_total(a, b);
        lemma_text_less_total(b, c);
        if text_less(a, b) {
            lemma_text_less_transitive(c, a, b);
        }
    }
}

proof fn lemma_insert_by_name<T: PaletteRow>(sorted: Seq<T::V>, row: T::V)
    requires
        in_name_order::<T>(sorted),
    ensures
        in_name_order::<T>(insert_by_name::<T>(sorted, row)),
        insert_by_name::<T>(sorted, row).len() == sorted.len() + 1,
        insert_by_name::<T>(sorted, row).to_multiset() == sorted.to_multiset().insert(row),
        forall|x: T::V| #[trigger]
            insert_by_name::<T>(sorted, row).contains(x) <==> sorted.contains(x) || x == row,
    decreases sorted.len(),
{
    let out = insert_by_name::<T>(sorted, row);
    if sorted.len() > 0 && text_less(T::row_name(row), T::row_name(sorted.last())) {
        let front = sorted.drop_last();
        let last = sorted.last();
        assert forall|i: int, j: int| 0 <= i < j < front.len() implies text_at_most(
            T::row_name(#[trigger] front[i]),
            T::row_name(#[trigger] front[j]),
        ) by {
            assert(front[i] == sorted[i] && front[j] == sorted[j]);
        }
        lemma_insert_by_name::<T>(front, row);
        let inner = insert_by_name::<T>(front, row);
        assert(front.push(last) =~= sorted);
        assert forall|x: T::V| #[trigger] out.contains(x) <==> sorted.contains(x) || x == row by {
            lemma_contains_push(inner, last, x);
            lemma_contains_push(front, last, x);
        }
        assert forall|i: int, j: int| 0 <= i < j < out.len() implies text_at_most(
            T::row_name(#[trigger] out[i]),
            T::row_name(#[trigger] out[j]),
        ) by {
            if j == out.len() - 1 {
                assert(out[j] == last);
                assert(out[i] == inner[i]);
                assert(inner.contains(inner[i]));
                if inner[i] == row {
                    lemma_text_less_asymmetric(T::row_name(row), T::row_name(last));
                } else {
                    assert(front.contains(inner[i]));
                    let k = choose|k: int| 0 <= k < front.len() && front[k] == inner[i];
                    assert(sorted[k] == inner[i]);
                    assert(sorted[sorted.len() - 1] == last);
                }
            } else {
                assert(out[i] == inner[i] && out[j] == inner[j]);
            }
        }
        inner.to_multiset_ensures();
        front.to_multiset_ensures();
        assert(front.to_multiset().insert(row).insert(last) =~= front.to_multiset().insert(
            last,
        ).insert(row));
    } else {
        sorted.to_multiset_ensures();
        assert forall|x: T::V| #[trigger] out.contains(x) <==> sorted.contains(x) || x == row by {
            lemma_contains_push(sorted, row, x);
        }
        assert forall|i: int, j: int| 0 <= i < j < out.len() implies text_at_most(
            T::row_name(#[trigger] out[i]),
            T::row_name(#[trigger] out[j]),
        ) by {
            if j == out.len() - 1 {
                assert(out[j] == row);
                assert(out[i] == sorted[i]);
                let last = sorted.len() - 1;
                if i < last {
                    assert(text_at_most(T::row_name(sorted[i]), T::row_name(sorted[last])));
                    lemma_at_most_transitive(
                        T::row_name(sorted[i]),
                        T::row_name(sorted[last]),
                        T::row_name(row),
                    );
                }
            } else {
                assert(out[i] == sorted[i] && out[j] == sorted[j]);
            }
        }
    }
}

/// Sorting keeps every row, each as often as before, and puts their names in
/// order.
pub proof fn law_sorting_orders_the_rows<T: PaletteRow>(rows: Seq<T::V>)
    ensures
        in_name_order::<T>(by_name::<T>(rows)),
        by_name::<T>(rows).len() == rows.len(),
        by_name::<T>(rows).to_multiset() == rows.to_multiset(),
        forall|x: T::V| #[trigger] by_name::<T>(rows).contains(x) <==> rows.contains(x),
    decreases rows.len(),
{
    if rows.len() > 0 {
        let front = rows.drop_last();
        law_sorting_orders_the_rows::<T>(front);
        lemma_insert_by_name::<T>(by_name::<T>(front), rows.last());
        assert(front.push(rows.last()) =~= rows);
        front.to_multiset_ensures();
        assert forall|x: T::V| #[trigger] by_name::<T>(rows).contains(x) <==> rows.contains(x) by {
            lemma_contains_push(front, rows.last(), x);
        }
    } else {
        assert(rows =~= Seq::<T::V>::empty());
    }
}

/// The rows of one name.
pub open spec fn named<T: PaletteRow>(rows: Seq<T::V>, name: Seq<char>) -> Seq<T::V> {
    rows.filter(|row: T::V| T::row_name(row) == name)
}

/// Sorting is stable: the rows of one name keep their order.
pub proof fn law_sorting_is_stable<T: PaletteRow>(rows: Seq<T::V>, name: Seq<char>)
    ensures
        named::<T>(by_name::<T>(rows), name) == named::<T>(rows, name),
    decreases rows.len(),
{
    reveal(Seq::filter);
    if rows.len() > 0 {
        law_sorting_is_stable::<T>(rows.drop_last(), name);
        lemma_insert_is_stable::<T>(by_name::<T>(rows.drop_last()), rows.last(), name);
    }
}

proof fn lemma_insert_is_stable<T: PaletteRow>(sorted: Seq<T::V>, row: T::V, name: Seq<char>)
    ensures
        named::<T>(insert_by_name::<T>(sorted, row), name) == (if T::row_name(row) == name {
            named::<T>(sorted, name).push(row)
        } else {
            named::<T>(sorted, name)
        }),
    decreases sorted.len(),
{
    reveal(Seq::filter);
    let out = insert_by_name::<T>(sorted, row);
    if sorted.len() > 0 && text_less(T::row_name(row), T::row_name(sorted.last())) {
        lemma_insert_is_stable::<T>(sorted.drop_last(), row, name);
        lemma_text_less_irreflexive(T::row_name(row));
        assert(out.drop_last() =~= insert_by_name::<T>(sorted.drop_last(), row));
    } else {
        assert(out.drop_last() =~= sorted);
    }
}

// --- identity -----------------------------------------------------------------------

/// Some row among `rows` runs the same command as `row`.
pub open spec fn holds_command<T: PaletteRow>(rows: Seq<T::V>, row: T::V) -> bool {
    exists|i: int| 0 <= i < rows.len() && T::same_command(#[trigger] rows[i], row)
}

/// The rows without those that repeat the command of an earlier one.
pub open spec fn first_of_each<T: PaletteRow>(rows: Seq<T::V>) -> Seq<T::V>
    decreases rows.len(),
{
    if rows.len() == 0 {
        Seq::empty()
    } else {
        let kept = first_of_each::<T>(rows.drop_last());
        if holds_command::<T>(kept, rows.last()) {
            kept
        } else {
            kept.push(rows.last())
        }
    }
}

/// Keep the first row of each command.
pub fn keep_first_of_each<T: PaletteRow>(rows: Vec<T>) -> (r: Vec<T>)
    ensures
        views(r@) == first_of_each::<T>(views(rows@)),
{
    let ghost all = views(rows@);
    let mut rest = reversed(rows);
    let mut out: Vec<T> = Vec::new();
    proof {
        lemma_views_empty::<T>();
        assert(all.take(0) =~= Seq::<T::V>::empty());
    }
    let ghost mut done: int = 0;
    while rest.len() > 0
        invariant
            0 <= done <= all.len(),
            rest@.len() == all.len() - done,
            views(rest@) == all.skip(done).reverse(),
            views(out@) == first_of_each::<T>(all.take(done)),
        decreases rest@.len(),
    {
        let ghost before = rest@;
        if let Some(row) = rest.pop() {
            proof {
                lemma_take_next(before, all, done);
            }
            let mut found: bool = false;
            let mut i: usize = 0;
            while i < out.len() && !found
                invariant
                    i <= out@.len(),
                    found ==> holds_command::<T>(views(out@), row@),
                    !found ==> forall|k: int|
                        0 <= k < i ==> !T::same_command(#[trigger] views(out@)[k], row@),
                decreases out@.len() - i + (if found {
                    0int
                } else {
                    1int
                }),
            {
                if out[i].runs_same_command(&row) {
                    assert(T::same_command(views(out@)[i as int], row@));
                    found = true;
                } else {
                    assert(!T::same_command(views(out@)[i as int], row@));
                    i = i + 1;
                }
            }
            if !found {
                proof {
                    lemma_views_push(out@, row);
                }
                out.push(row);
            }
            proof {
                done = done + 1;
            }
        }
    }
    assert(all.take(done) =~= all);
    out
}

/// No two rows run the same command.
pub open spec fn distinct_commands<T: PaletteRow>(rows: Seq<T::V>) -> bool {
    forall|i: int, j: int|
        0 <= i < j < rows.len() ==> !T::same_command(#[trigger] rows[i], #[trigger] rows[j])
}

/// After duplicates are gone no command is listed twice, every row that is left
/// was there before, and every command that was there is still listed.
pub proof fn law_each_command_is_listed_once<T: PaletteRow>(rows: Seq<T::V>)
    requires
        forall|x: T::V| #[trigger] T::same_command(x, x),
    ensures
        distinct_commands::<T>(first_of_each::<T>(rows)),
        forall|x: T::V| #[trigger] first_of_each::<T>(rows).contains(x) ==> rows.contains(x),
        forall|x: T::V| #[trigger]
            rows.contains(x) ==> holds_command::<T>(first_of_each::<T>(rows), x),
    decreases rows.len(),
{
    if rows.len() > 0 {
        let front = rows.drop_last();
        let last = rows.last();
        law_each_command_is_listed_once::<T>(front);
        let kept = first_of_each::<T>(front);
        let out = first_of_each::<T>(rows);
        assert(front.push(last) =~= rows);
        assert forall|x: T::V| #[trigger] out.contains(x) implies rows.contains(x) by {
            lemma_contains_push(front, last, x);
            lemma_contains_push(kept, last, x);
        }
        assert forall|x: T::V| #[trigger] rows.contains(x) implies holds_command::<T>(out, x) by {
            lemma_contains_push(front, last, x);
            if front.contains(x) {
                assert(holds_command::<T>(kept, x));
                let i = choose|i: int| 0 <= i < kept.len() && T::same_command(kept[i], x);
                assert(out[i] == kept[i]);
            } else {
                assert(x == last);
                if holds_command::<T>(kept, last) {
                } else {
                    assert(out[out.len() - 1] == last);
                    assert(T::same_command(last, last));
                }
            }
        }
        if !holds_command::<T>(kept, last) {
            assert forall|i: int, j: int| 0 <= i < j < out.len() implies !T::same_command(
                #[trigger] out[i],
                #[trigger] out[j],
            ) by {
                assert(out[i] == kept[i]);
                if j < kept.len() {
                    assert(out[j] == kept[j]);
                } else {
                    assert(out[j] == last);
                }
            }
        }
    }
}

/// Rows that repeat no command are all kept, whatever comes after them.
pub proof fn law_earlier_rows_are_kept<T: PaletteRow>(rows: Seq<T::V>, more: Seq<T::V>)
    requires
        distinct_commands::<T>(rows),
    ensures
        first_of_each::<T>(rows + more).len() >= rows.len(),
        first_of_each::<T>(rows + more).take(rows.len() as int) == rows,
    decreases rows.len() + more.len(),
{
    let all = rows + more;
    if more.len() > 0 {
        law_earlier_rows_are_kept::<T>(rows, more.drop_last());
        assert(all.drop_last() =~= rows + more.drop_last());
        let kept = first_of_each::<T>(rows + more.drop_last());
        assert(kept.push(all.last()).take(rows.len() as int) =~= kept.take(rows.len() as int));
    } else if rows.len() > 0 {
        let front = rows.drop_last();
        assert(all =~= rows);
        assert forall|i: int, j: int| 0 <= i < j < front.len() implies !T::same_command(
            #[trigger] front[i],
            #[trigger] front[j],
        ) by {
            assert(front[i] == rows[i] && front[j] == rows[j]);
        }
        law_earlier_rows_are_kept::<T>(front, more);
        assert(front + more =~= front);
        let kept = first_of_each::<T>(front);
        assert(kept.len() >= front.len());
        lemma_first_of_each_len::<T>(front);
        assert(kept.take(front.len() as int) =~= kept);
        assert(kept == front);
        assert(!holds_command::<T>(front, rows.last())) by {
            if holds_command::<T>(front, rows.last()) {
                let i = choose|i: int|
                    0 <= i < front.len() && T::same_command(front[i], rows.last());
                assert(T::same_command(rows[i], rows[rows.len() - 1]));
            }
        }
        assert(front.push(rows.last()) =~= rows);
        assert(rows.take(rows.len() as int) =~= rows);
    } else {
        assert(all =~= rows);
        assert(rows =~= Seq::<T::V>::empty());
        assert(first_of_each::<T>(all).take(0) =~= rows);
    }
}

proof fn lemma_first_of_each_len<T: PaletteRow>(rows: Seq<T::V>)
    ensures
        first_of_each::<T>(rows).len() <= rows.len(),
    decreases rows.len(),
{
    if rows.len() > 0 {
        lemma_first_of_each_len::<T>(rows.drop_last());
    }
}

/// No more rows are left than there were.
pub proof fn law_duplicates_only_go<T: PaletteRow>(rows: Seq<T::V>)
    ensures
        first_of_each::<T>(rows).len() <= rows.len(),
        by_name::<T>(first_of_each::<T>(rows)).len() <= rows.len(),
{
    lemma_first_of_each_len::<T>(rows);
    law_sorting_orders_the_rows::<T>(first_of_each::<T>(rows));
}

proof fn lemma_insert_contains<T: PaletteRow>(sorted: Seq<T::V>, row: T::V)
    ensures
        insert_by_name::<T>(sorted, row).len() == sorted.len() + 1,
        forall|x: T::V| #[trigger]
            insert_by_name::<T>(sorted, row).contains(x) <==> sorted.contains(x) || x == row,
    decreases sorted.len(),
{
    let out = insert_by_name::<T>(sorted, row);
    if sorted.len() > 0 && text_less(T::row_name(row), T::row_name(sorted.last())) {
        let front = sorted.drop_last();
        lemma_insert_contains::<T>(front, row);
        assert(front.push(sorted.last()) =~= sorted);
        assert forall|x: T::V| #[trigger] out.contains(x) <==> sorted.contains(x) || x == row by {
            lemma_contains_push(insert_by_name::<T>(front, row), sorted.last(), x);
            lemma_contains_push(front, sorted.last(), x);
        }
    } else {
        assert forall|x: T::V| #[trigger] out.contains(x) <==> sorted.contains(x) || x == row by {
            lemma_contains_push(sorted, row, x);
        }
    }
}

proof fn lemma_insert_distinct<T: PaletteRow>(sorted: Seq<T::V>, row: T::V)
    requires
        distinct_commands::<T>(sorted),
        forall|i: int|
            0 <= i < sorted.len() ==> !T::same_command(#[trigger] sorted[i], row)
                && !T::same_command(row, sorted[i]),
    ensures
        distinct_commands::<T>(insert_by_name::<T>(sorted, row)),
    decreases sorted.len(),
{
    let out = insert_by_name::<T>(sorted, row);
    if sorted.len() > 0 && text_less(T::row_name(row), T::row_name(sorted.last())) {
        let front = sorted.drop_last();
        let last = sorted.last();
        assert(distinct_commands::<T>(front)) by {
            assert forall|i: int, j: int| 0 <= i < j < front.len() implies !T::same_command(
                #[trigger] front[i],
                #[trigger] front[j],
            ) by {
                assert(front[i] == sorted[i] && front[j] == sorted[j]);
            }
        }
        assert forall|i: int| 0 <= i < front.len() implies !T::same_command(
            #[trigger] front[i],
            row,
        ) && !T::same_command(row, front[i]) by {
            assert(front[i] == sorted[i]);
        }
        lemma_insert_distinct::<T>(front, row);
        lemma_insert_contains::<T>(front, row);
        let inner = insert_by_name::<T>(front, row);
        assert forall|i: int, j: int| 0 <= i < j < out.len() implies !T::same_command(
            #[trigger] out[i],
            #[trigger] out[j],
        ) by {
            assert(out[i] == inner[i]);
            if j < inner.len() {
                assert(out[j] == inner[j]);
            } else {
                assert(out[j] == last);
                assert(last == sorted[sorted.len() - 1]);
                assert(inner.contains(inner[i]));
                if inner[i] != row {
                    let k = choose|k: int| 0 <= k < front.len() && front[k] == inner[i];
                    assert(sorted[k] == inner[i]);
                }
            }
        }
    } else {
        assert forall|i: int, j: int| 0 <= i < j < out.len() implies !T::same_command(
            #[trigger] out[i],
            #[trigger] out[j],
        ) by {
            assert(out[i] == sorted[i]);
            if j < sorted.len() {
                assert(out[j] == sorted[j]);
            }
        }
    }
}

/// Sorting lists no command twice where none was listed twice before.
pub proof fn law_sorting_keeps_commands_distinct<T: PaletteRow>(rows: Seq<T::V>)
    requires
        distinct_commands::<T>(rows),
        forall|a: T::V, b: T::V| #[trigger] T::same_command(a, b) ==> T::same_command(b, a),
    ensures
        distinct_commands::<T>(by_name::<T>(rows)),
    decreases rows.len(),
{
    if rows.len() > 0 {
        let front = rows.drop_last();
        let last = rows.last();
        assert(distinct_commands::<T>(front)) by {
            assert forall|i: int, j: int| 0 <= i < j < front.len() implies !T::same_command(
                #[trigger] front[i],
                #[trigger] front[j],
            ) by {
                assert(front[i] == rows[i] && front[j] == rows[j]);
            }
        }
        law_sorting_keeps_commands_distinct::<T>(front);
        law_sorting_orders_the_rows::<T>(front);
        let sorted = by_name::<T>(front);
        assert forall|i: int| 0 <= i < sorted.len() implies !T::same_command(
            #[trigger] sorted[i],
            last,
        ) && !T::same_command(last, sorted[i]) by {
            assert(sorted.contains(sorted[i]));
            let k = choose|k: int| 0 <= k < front.len() && front[k] == sorted[i];
            assert(rows[k] == sorted[i]);
            assert(rows[rows.len() - 1] == last);
            assert(!T::same_command(rows[k], rows[rows.len() - 1]));
        }
        lemma_insert_distinct::<T>(sorted, last);
    }
}

// --- one row for each name --------------------------------------------------------

/// The rows without those that directly follow one of the same name.
pub open spec fn without_repeats<T: PaletteRow>(rows: Seq<T::V>) -> Seq<T::V>
    decreases rows.len(),
{
    if rows.len() == 0 {
        Seq::empty()
    } else {
        let kept = without_repeats::<T>(rows.drop_last());
        if kept.len() > 0 && T::row_name(kept.last()) == T::row_name(rows.last()) {
            kept
        } else {
            kept.push(rows.last())
        }
    }
}

/// Drop rows that directly follow one of the same name.
pub fn drop_repeats<T: PaletteRow>(rows: Vec<T>) -> (r: Vec<T>)
    ensures
        views(r@) == without_repeats::<T>(views(rows@)),
{
    let ghost all = views(rows@);
    let mut rest = reversed(rows);
    let mut out: Vec<T> = Vec::new();
    proof {
        lemma_views_empty::<T>();
        assert(all.take(0) =~= Seq::<T::V>::empty());
    }
    let ghost mut done: int = 0;
    while rest.len() > 0
        invariant
            0 <= done <= all.len(),
            rest@.len() == all.len() - done,
            views(rest@) == all.skip(done).reverse(),
            views(out@) == without_repeats::<T>(all.take(done)),
        decreases rest@.len(),
    {
        let ghost before = rest@;
        if let Some(row) = rest.pop() {
            proof {
                lemma_take_next(before, all, done);
            }
            let kept: usize = out.len();
            let repeats = kept > 0 && same_text(out[kept - 1].name_text(), row.name_text());
            assert(kept > 0 ==> views(out@).last() == out@[kept - 1]@);
            if !repeats {
                proof {
                    lemma_views_push(out@, row);
                }
                out.push(row);
            }
            proof {
                done = done + 1;
            }
        }
    }
    assert(all.take(done) =~= all);
    out
}

/// The names strictly increase.
pub open spec fn in_strict_name_order<T: PaletteRow>(rows: Seq<T::V>) -> bool {
    forall|i: int, j: int|
        0 <= i < j < rows.len() ==> text_less(
            T::row_name(#[trigger] rows[i]),
            T::row_name(#[trigger] rows[j]),
        )
}

/// Of rows in name order, one is left for each name.
pub proof fn law_one_row_for_each_name<T: PaletteRow>(rows: Seq<T::V>)
    requires
        in_name_order::<T>(rows),
    ensures
        in_strict_name_order::<T>(without_repeats::<T>(rows)),
        forall|x: T::V| #[trigger] without_repeats::<T>(rows).contains(x) ==> rows.contains(x),
        forall|x: T::V| #[trigger]
            rows.contains(x) ==> names_of::<T>(without_repeats::<T>(rows)).contains(
                T::row_name(x),
            ),
        rows.len() > 0 ==> without_repeats::<T>(rows).len() > 0 && T::row_name(
            without_repeats::<T>(rows).last(),
        ) == T::row_name(rows.last()),
    decreases rows.len(),
{
    if rows.len() > 0 {
        let front = rows.drop_last();
        let last = rows.last();
        assert forall|i: int, j: int| 0 <= i < j < front.len() implies text_at_most(
            T::row_name(#[trigger] front[i]),
            T::row_name(#[trigger] front[j]),
        ) by {
            assert(front[i] == rows[i] && front[j] == rows[j]);
        }
        law_one_row_for_each_name::<T>(front);
        let kept = without_repeats::<T>(front);
        let out = without_repeats::<T>(rows);
        assert(front.push(last) =~= rows);
        assert forall|x: T::V| #[trigger] out.contains(x) implies rows.contains(x) by {
            lemma_contains_push(front, last, x);
            lemma_contains_push(kept, last, x);
        }
        assert forall|x: T::V| #[trigger] rows.contains(x) implies names_of::<T>(out).contains(
            T::row_name(x),
        ) by {
            lemma_contains_push(front, last, x);
            if front.contains(x) {
                let names = names_of::<T>(kept);
                assert(names.contains(T::row_name(x)));
                let i = choose|i: int| 0 <= i < names.len() && names[i] == T::row_name(x);
                assert(names_of::<T>(out)[i] == T::row_name(x));
            } else {
                assert(names_of::<T>(out)[out.len() - 1] == T::row_name(last));
            }
        }
        assert forall|i: int, j: int| 0 <= i < j < out.len() implies text_less(
            T::row_name(#[trigger] out[i]),
            T::row_name(#[trigger] out[j]),
        ) by {
            if j < kept.len() {
                assert(out[i] == kept[i] && out[j] == kept[j]);
            } else {
                assert(out[j] == last && out[i] == kept[i]);
                let end = kept.len() - 1;
                let before = T::row_name(front.last());
                assert(kept.last() == kept[end]);
                assert(front.last() == rows[rows.len() - 2]);
                assert(rows[rows.len() - 1] == last);
                assert(text_at_most(before, T::row_name(last)));
                lemma_text_less_total(before, T::row_name(last));
                assert(text_less(T::row_name(kept[end]), T::row_name(last)));
                if i < end {
                    assert(text_less(T::row_name(kept[i]), T::row_name(kept[end])));
                    lemma_text_less_transitive(
                        T::row_name(kept[i]),
                        T::row_name(kept[end]),
                        T::row_name(last),
                    );
                }
            }
        }
    }
}

// --- ranking ------------------------------------------------------------------------

/// Row `a` ranks before row `b`: by a better score, else by name, else by place.
pub open spec fn ranks_before(names: Seq<Seq<char>>, query: Seq<char>, a: int, b: int) -> bool {
    let x = score(query, names[a])->0;
    let y = score(query, names[b])->0;
    x > y || (x == y && (text_less(names[a], names[b]) || (names[a] == names[b] && a < b)))
}

/// `ranked` lists the places of the rows whose name matches, best first.
pub open spec fn is_ranking(
    names: Seq<Seq<char>>,
    query: Seq<char>,
    ranked: Seq<usize>,
) -> bool {
    &&& forall|i: usize| #[trigger]
        ranked.contains(i) <==> i < names.len() && score(query, names[i as int]) is Some
    &&& forall|a: int, b: int|
        0 <= a < b < ranked.len() ==> ranks_before(
            names,
            query,
            #[trigger] ranked[a] as int,
            #[trigger] ranked[b] as int,
        )
}

/// The ranking of the rows against a query.
pub open spec fn ranking(names: Seq<Seq<char>>, query: Seq<char>) -> Seq<usize> {
    choose|ranked: Seq<usize>| is_ranking(names, query, ranked)
}

/// Every name can be scored against the query.
pub open spec fn all_scorable(names: Seq<Seq<char>>, query: Seq<char>) -> bool {
    forall|i: int| 0 <= i < names.len() ==> scorable(query, #[trigger] names[i])
}

proof fn lemma_ranks_transitive(names: Seq<Seq<char>>, query: Seq<char>, a: int, b: int, c: int)
    requires
        ranks_before(names, query, a, b),
        ranks_before(names, query, b, c),
    ensures
        ranks_before(names, query, a, c),
{
    if text_less(names[a], names[b]) && text_less(names[b], names[c]) {
        lemma_text_less_transitive(names[a], names[b], names[c]);
    }
}

proof fn lemma_ranks_asymmetric(names: Seq<Seq<char>>, query: Seq<char>, a: int, b: int)
    requires
        ranks_before(names, query, a, b),
    ensures
        !ranks_before(names, query, b, a),
{
    lemma_text_less_irreflexive(names[a]);
    if text_less(names[a], names[b]) {
        lemma_text_less_asymmetric(names[a], names[b]);
    }
}

/// Whether every row can be scored against a query.
pub fn can_rank<T: PaletteRow>(rows: &[T], query: &str) -> (r: bool)
    ensures
        r == all_scorable(names_of::<T>(views(rows@)), query@),
{
    let ghost names = names_of::<T>(views(rows@));
    let mut i: usize = 0;
    while i < rows.len()
        invariant
            i <= rows@.len(),
            names == names_of::<T>(views(rows@)),
            forall|k: int| 0 <= k < i ==> scorable(query@, #[trigger] names[k]),
        decreases rows@.len() - i,
    {
        assert(names[i as int] == T::row_name(rows@[i as int]@));
        if !is_scorable(query, rows[i].name_text()) {
            return false;
        }
        i = i + 1;
    }
    true
}

/// Rank rows against a query: best score first, by name where scores are equal.
pub fn rank_rows<T: PaletteRow>(rows: &[T], query: &str) -> (r: Vec<usize>)
    requires
        all_scorable(names_of::<T>(views(rows@)), query@),
    ensures
        is_ranking(names_of::<T>(views(rows@)), query@, r@),
        r@ == ranking(names_of::<T>(views(rows@)), query@),
{
    let ghost names = names_of::<T>(views(rows@));
    let mut r: Vec<usize> = Vec::new();
    let mut points: Vec<i32> = Vec::new();
    let total: usize = rows.len();
    let mut n: usize = 0;
    while n < total
        invariant
            total == rows@.len(),
            n <= total,
            names == names_of::<T>(views(rows@)),
            all_scorable(names, query@),
            points@.len() == r@.len(),
            forall|k: int| 0 <= k < r@.len() ==> #[trigger] r@[k] < n,
            forall|k: int|
                0 <= k < r@.len() ==> score(query@, names[#[trigger] r@[k] as int]) == Some(
                    points@[k] as int,
                ),
            forall|i: usize| #[trigger]
                r@.contains(i) <==> i < n && score(query@, names[i as int]) is Some,
            forall|a: int, b: int|
                0 <= a < b < r@.len() ==> ranks_before(
                    names,
                    query@,
                    #[trigger] r@[a] as int,
                    #[trigger] r@[b] as int,
                ),
        decreases total - n,
    {
        assert(names[n as int] == T::row_name(rows@[n as int]@));
        let found = fuzzy_score(query, rows[n].name_text());
        if let Some(earned) = found {
            let mut p: usize = r.len();
            while p > 0 && (points[p - 1] < earned || (points[p - 1] == earned && less_text(
                rows[n].name_text(),
                rows[r[p - 1]].name_text(),
            )))
                invariant
                    total == rows@.len(),
                    n < total,
                    names == names_of::<T>(views(rows@)),
                    names[n as int] == T::row_name(rows@[n as int]@),
                    score(query@, names[n as int]) == Some(earned as int),
                    points@.len() == r@.len(),
                    p <= r@.len(),
                    forall|k: int| 0 <= k < r@.len() ==> #[trigger] r@[k] < n,
                    forall|k: int|
                        0 <= k < r@.len() ==> score(query@, names[#[trigger] r@[k] as int])
                            == Some(points@[k] as int),
                    forall|k: int|
                        p <= k < r@.len() ==> ranks_before(
                            names,
                            query@,
                            n as int,
                            #[trigger] r@[k] as int,
                        ),
                decreases p,
            {
                p = p - 1;
                assert(names[r@[p as int] as int] == T::row_name(rows@[r@[p as int] as int]@));
            }
            let ghost before = r@;
            let ghost scored = points@;
            r.insert(p, n);
            points.insert(p, earned);
            proof {
                if p > 0 {
                    let q = before[p - 1] as int;
                    assert(names[q] == T::row_name(rows@[q]@));
                    lemma_text_less_total(names[n as int], names[q]);
                    assert(ranks_before(names, query@, q, n as int));
                }
                assert forall|k: int| 0 <= k < p implies ranks_before(
                    names,
                    query@,
                    #[trigger] before[k] as int,
                    n as int,
                ) by {
                    if k < p - 1 {
                        assert(ranks_before(
                            names,
                            query@,
                            before[k] as int,
                            before[p - 1] as int,
                        ));
                        lemma_ranks_transitive(
                            names,
                            query@,
                            before[k] as int,
                            before[p - 1] as int,
                            n as int,
                        );
                    }
                }
                assert forall|a: int, b: int| 0 <= a < b < r@.len() implies ranks_before(
                    names,
                    query@,
                    #[trigger] r@[a] as int,
                    #[trigger] r@[b] as int,
                ) by {
                    let a2 = if a < p {
                        a
                    } else {
                        a - 1
                    };
                    let b2 = if b < p {
                        b
                    } else {
                        b - 1
                    };
                    if a != p {
                        assert(r@[a] == before[a2]);
                    }
                    if b != p {
                        assert(r@[b] == before[b2]);
                    }
                }
                assert forall|k: int| 0 <= k < r@.len() implies score(
                    query@,
                    names[#[trigger] r@[k] as int],
                ) == Some(points@[k] as int) && r@[k] < n + 1 by {
                    let k2 = if k < p {
                        k
                    } else {
                        k - 1
                    };
                    if k != p {
                        assert(r@[k] == before[k2]);
                        assert(points@[k] == scored[k2]);
                    }
                }
                assert forall|i: usize| #[trigger]
                    r@.contains(i) <==> i < n + 1 && score(query@, names[i as int]) is Some by {
                    lemma_contains_insert(before, p as int, n, i);
                }
            }
        }
        n = n + 1;
    }
    proof {
        assert(is_ranking(names, query@, r@));
        law_ranking_is_unique(names, query@, r@, ranking(names, query@));
    }
    r
}

proof fn lemma_contains_insert(s: Seq<usize>, p: int, added: usize, x: usize)
    requires
        0 <= p <= s.len(),
    ensures
        s.insert(p, added).contains(x) <==> s.contains(x) || x == added,
{
    let t = s.insert(p, added);
    assert(t[p] == added);
    if s.contains(x) {
        let k = choose|k: int| 0 <= k < s.len() && s[k] == x;
        let k2 = if k < p {
            k
        } else {
            k + 1
        };
        assert(t[k2] == x);
    }
    if t.contains(x) && x != added {
        let k = choose|k: int| 0 <= k < t.len() && t[k] == x;
        let k2 = if k < p {
            k
        } else {
            k - 1
        };
        assert(s[k2] == x);
    }
}

/// `ranked` ranks the first `n` rows.
spec fn ranks_first(names: Seq<Seq<char>>, query: Seq<char>, n: int, ranked: Seq<usize>) -> bool {
    &&& forall|i: usize| #[trigger]
        ranked.contains(i) <==> i < n && score(query, names[i as int]) is Some
    &&& forall|a: int, b: int|
        0 <= a < b < ranked.len() ==> ranks_before(
            names,
            query,
            #[trigger] ranked[a] as int,
            #[trigger] ranked[b] as int,
        )
}

/// The place for row `n` among earlier rows that are ranked.
proof fn lemma_rank_place(
    names: Seq<Seq<char>>,
    query: Seq<char>,
    n: int,
    ranked: Seq<usize>,
    p: int,
) -> (place: int)
    requires
        0 <= p <= ranked.len(),
        forall|k: int| 0 <= k < ranked.len() ==> (#[trigger] ranked[k]) < n,
        forall|k: int|
            p <= k < ranked.len() ==> ranks_before(names, query, n, #[trigger] ranked[k] as int),
    ensures
        0 <= place <= ranked.len(),
        forall|k: int|
            place <= k < ranked.len() ==> ranks_before(
                names,
                query,
                n,
                #[trigger] ranked[k] as int,
            ),
        place > 0 ==> ranks_before(names, query, ranked[place - 1] as int, n),
    decreases p,
{
    if p == 0 || ranks_before(names, query, ranked[p - 1] as int, n) {
        p
    } else {
        let q = ranked[p - 1] as int;
        assert(q < n);
        lemma_text_less_total(names[q], names[n]);
        assert(ranks_before(names, query, n, q));
        lemma_rank_place(names, query, n, ranked, p - 1)
    }
}

proof fn lemma_rank_first(names: Seq<Seq<char>>, query: Seq<char>, n: int) -> (ranked: Seq<usize>)
    requires
        0 <= n <= names.len() <= usize::MAX,
    ensures
        ranks_first(names, query, n, ranked),
    decreases n,
{
    if n == 0 {
        Seq::empty()
    } else {
        let m = n - 1;
        let before = lemma_rank_first(names, query, m);
        assert forall|k: int| 0 <= k < before.len() implies (#[trigger] before[k]) < m by {
            assert(before.contains(before[k]));
        }
        if score(query, names[m]) is Some {
            let p = lemma_rank_place(names, query, m, before, before.len() as int);
            let added = m as usize;
            let ranked = before.insert(p, added);
            assert forall|i: usize| #[trigger] ranked.contains(i) <==> i < n && score(
                query,
                names[i as int],
            ) is Some by {
                lemma_contains_insert(before, p, added, i);
                assert(before.contains(i) <==> i < m && score(query, names[i as int]) is Some);
            }
            assert forall|k: int| 0 <= k < p implies ranks_before(
                names,
                query,
                #[trigger] before[k] as int,
                m,
            ) by {
                if k < p - 1 {
                    assert(ranks_before(names, query, before[k] as int, before[p - 1] as int));
                    lemma_ranks_transitive(
                        names,
                        query,
                        before[k] as int,
                        before[p - 1] as int,
                        m,
                    );
                }
            }
            assert forall|a: int, b: int| 0 <= a < b < ranked.len() implies ranks_before(
                names,
                query,
                #[trigger] ranked[a] as int,
                #[trigger] ranked[b] as int,
            ) by {
                let a2 = if a < p {
                    a
                } else {
                    a - 1
                };
                let b2 = if b < p {
                    b
                } else {
                    b - 1
                };
                if a != p {
                    assert(ranked[a] == before[a2]);
                }
                if b != p {
                    assert(ranked[b] == before[b2]);
                }
            }
            ranked
        } else {
            assert forall|i: usize| #[trigger] before.contains(i) <==> i < n && score(
                query,
                names[i as int],
            ) is Some by {
                assert(before.contains(i) <==> i < m && score(query, names[i as int]) is Some);
            }
            before
        }
    }
}

/// Rows can be ranked against any query.
pub proof fn law_ranking_exists(names: Seq<Seq<char>>, query: Seq<char>)
    requires
        names.len() <= usize::MAX,
    ensures
        is_ranking(names, query, ranking(names, query)),
{
    let ranked = lemma_rank_first(names, query, names.len() as int);
    assert(is_ranking(names, query, ranked));
}

/// There is one ranking of the rows against a query.
pub proof fn law_ranking_is_unique(
    names: Seq<Seq<char>>,
    query: Seq<char>,
    a: Seq<usize>,
    b: Seq<usize>,
)
    requires
        is_ranking(names, query, a),
        is_ranking(names, query, b),
    ensures
        a == b,
{
    lemma_same_order(names, query, a, b);
}

proof fn lemma_same_order(
    names: Seq<Seq<char>>,
    query: Seq<char>,
    a: Seq<usize>,
    b: Seq<usize>,
)
    requires
        forall|i: usize| #[trigger] a.contains(i) <==> b.contains(i),
        forall|i: int, j: int|
            0 <= i < j < a.len() ==> ranks_before(
                names,
                query,
                #[trigger] a[i] as int,
                #[trigger] a[j] as int,
            ),
        forall|i: int, j: int|
            0 <= i < j < b.len() ==> ranks_before(
                names,
                query,
                #[trigger] b[i] as int,
                #[trigger] b[j] as int,
            ),
    ensures
        a == b,
    decreases a.len(),
{
    if a.len() == 0 {
        if b.len() > 0 {
            assert(b.contains(b[0]));
            assert(a.contains(b[0]));
        }
        assert(a =~= b);
    } else {
        assert(a.contains(a[0]));
        assert(b.contains(a[0]));
        let k = choose|k: int| 0 <= k < b.len() && b[k] == a[0];
        assert(b.contains(b[0]));
        assert(a.contains(b[0]));
        let m = choose|m: int| 0 <= m < a.len() && a[m] == b[0];
        if a[0] != b[0] {
            assert(ranks_before(names, query, b[0] as int, b[k] as int));
            assert(ranks_before(names, query, a[0] as int, a[m] as int));
            lemma_ranks_asymmetric(names, query, a[0] as int, b[0] as int);
        }
        let ta = a.skip(1);
        let tb = b.skip(1);
        assert forall|i: int, j: int| 0 <= i < j < ta.len() implies ranks_before(
            names,
            query,
            #[trigger] ta[i] as int,
            #[trigger] ta[j] as int,
        ) by {
            assert(ta[i] == a[i + 1] && ta[j] == a[j + 1]);
        }
        assert forall|i: int, j: int| 0 <= i < j < tb.len() implies ranks_before(
            names,
            query,
            #[trigger] tb[i] as int,
            #[trigger] tb[j] as int,
        ) by {
            assert(tb[i] == b[i + 1] && tb[j] == b[j + 1]);
        }
        assert forall|i: usize| #[trigger] ta.contains(i) <==> tb.contains(i) by {
            lemma_tail_contains(names, query, a, i);
            lemma_tail_contains(names, query, b, i);
            assert(a.contains(i) <==> b.contains(i));
        }
        lemma_same_order(names, query, ta, tb);
        assert(a =~= seq![a[0]] + ta);
        assert(b =~= seq![b[0]] + tb);
    }
}

proof fn lemma_tail_contains(names: Seq<Seq<char>>, query: Seq<char>, a: Seq<usize>, i: usize)
    requires
        a.len() > 0,
        forall|i: int, j: int|
            0 <= i < j < a.len() ==> ranks_before(
                names,
                query,
                #[trigger] a[i] as int,
                #[trigger] a[j] as int,
            ),
    ensures
        a.skip(1).contains(i) <==> a.contains(i) && i != a[0],
{
    let t = a.skip(1);
    if t.contains(i) {
        let k = choose|k: int| 0 <= k < t.len() && t[k] == i;
        assert(a[k + 1] == i);
        assert(ranks_before(names, query, a[0] as int, a[k + 1] as int));
        lemma_ranks_asymmetric(names, query, a[0] as int, a[k + 1] as int);
    }
    if a.contains(i) && i != a[0] {
        let k = choose|k: int| 0 <= k < a.len() && a[k] == i;
        assert(t[k - 1] == i);
    }
}

/// A ranking lists places of rows, no more of them than there are rows.
pub proof fn law_ranked_rows_are_rows(
    names: Seq<Seq<char>>,
    query: Seq<char>,
    ranked: Seq<usize>,
)
    requires
        is_ranking(names, query, ranked),
    ensures
        forall|i: int| 0 <= i < ranked.len() ==> (#[trigger] ranked[i]) < names.len(),
        ranked.len() <= names.len(),
        ranked.no_duplicates(),
{
    assert forall|i: int| 0 <= i < ranked.len() implies (#[trigger] ranked[i]) < names.len() by {
        assert(ranked.contains(ranked[i]));
    }
    assert forall|i: int, j: int|
        0 <= i < ranked.len() && 0 <= j < ranked.len() && i != j implies ranked[i]
        != ranked[j] by {
        if i < j {
            assert(ranks_before(names, query, ranked[i] as int, ranked[j] as int));
            lemma_ranks_asymmetric(names, query, ranked[i] as int, ranked[j] as int);
        } else {
            assert(ranks_before(names, query, ranked[j] as int, ranked[i] as int));
            lemma_ranks_asymmetric(names, query, ranked[j] as int, ranked[i] as int);
        }
    }
    let places = Set::new(|i: usize| i < names.len());
    ranked.unique_seq_to_set();
    lemma_places_len(names.len());
    assert(ranked.to_set().subset_of(places));
    lemma_len_subset(ranked.to_set(), places);
}

proof fn lemma_places_len(n: nat)
    ensures
        Set::new(|i: usize| i < n).finite(),
        Set::new(|i: usize| i < n).len() <= n,
    decreases n,
{
    let places = Set::new(|i: usize| i < n);
    if n == 0 {
        assert(places =~= Set::<usize>::empty());
    } else {
        lemma_places_len((n - 1) as nat);
        let fewer = Set::new(|i: usize| i < n - 1);
        if n - 1 <= usize::MAX {
            assert(places =~= fewer.insert((n - 1) as usize));
        } else {
            assert(places =~= fewer);
        }
    }
}

/// A ranking lists every row that matches and no other, none of them twice. A
/// better score comes first, then the earlier name, then the earlier place. A
/// longer query lists no row that what was typed before does not.
pub proof fn law_ranking_lists_the_matches(
    names: Seq<Seq<char>>,
    query: Seq<char>,
    more: Seq<char>,
)
    requires
        names.len() <= usize::MAX,
    ensures
        ranking(names, query).no_duplicates(),
        forall|i: usize| #[trigger]
            ranking(names, query).contains(i) <==> i < names.len() && score(
                query,
                names[i as int],
            ) is Some,
        forall|a: int, b: int|
            0 <= a < b < ranking(names, query).len() ==> ranks_before(
                names,
                query,
                #[trigger] ranking(names, query)[a] as int,
                #[trigger] ranking(names, query)[b] as int,
            ),
        forall|i: usize| #[trigger]
            ranking(names, query + more).contains(i) ==> ranking(names, query).contains(i),
        ranking(names, query + more).len() <= ranking(names, query).len(),
{
    let short = ranking(names, query);
    let long = ranking(names, query + more);
    law_ranking_exists(names, query);
    law_ranking_exists(names, query + more);
    law_ranked_rows_are_rows(names, query, short);
    law_ranked_rows_are_rows(names, query + more, long);
    assert forall|i: usize| #[trigger] long.contains(i) implies short.contains(i) by {
        law_typing_narrows(query, more, names[i as int]);
    }
    short.unique_seq_to_set();
    long.unique_seq_to_set();
    assert(long.to_set().subset_of(short.to_set()));
    lemma_len_subset(long.to_set(), short.to_set());
}

/// The best score comes first.
pub proof fn law_best_match_comes_first(
    names: Seq<Seq<char>>,
    query: Seq<char>,
    ranked: Seq<usize>,
    i: usize,
)
    requires
        is_ranking(names, query, ranked),
        i < names.len(),
        score(query, names[i as int]) is Some,
    ensures
        ranked.len() > 0,
        score(query, names[i as int])->0 <= score(query, names[ranked[0] as int])->0,
{
    assert(ranked.contains(i));
    let k = choose|k: int| 0 <= k < ranked.len() && ranked[k] == i;
    if k > 0 {
        assert(ranks_before(names, query, ranked[0] as int, ranked[k] as int));
    }
}

/// Under an empty query rows in name order are listed as they are.
pub proof fn law_empty_query_lists_all(names: Seq<Seq<char>>, ranked: Seq<usize>)
    requires
        names.len() <= usize::MAX,
        forall|i: int, j: int|
            0 <= i < j < names.len() ==> text_at_most(#[trigger] names[i], #[trigger] names[j]),
        is_ranking(names, Seq::<char>::empty(), ranked),
    ensures
        ranked.len() == names.len(),
        forall|i: int| 0 <= i < ranked.len() ==> #[trigger] ranked[i] == i,
{
    let query = Seq::<char>::empty();
    let plain = Seq::new(names.len(), |i: int| i as usize);
    assert forall|i: int| 0 <= i < names.len() implies score(query, #[trigger] names[i]) == Some(
        0int,
    ) by {
        law_empty_query_matches_all(names[i]);
    }
    assert forall|i: usize| #[trigger] plain.contains(i) <==> i < names.len() && score(
        query,
        names[i as int],
    ) is Some by {
        if i < names.len() {
            assert(plain[i as int] == i);
        }
    }
    assert forall|a: int, b: int| 0 <= a < b < plain.len() implies ranks_before(
        names,
        query,
        #[trigger] plain[a] as int,
        #[trigger] plain[b] as int,
    ) by {
        assert(text_at_most(names[a], names[b]));
        lemma_text_less_total(names[a], names[b]);
    }
    law_ranking_is_unique(names, query, plain, ranked);
}

// --- selection ------------------------------------------------------------------------

/// The row `delta` steps from `selected` in a list that wraps around.
pub open spec fn wrapped(selected: int, len: int, delta: int) -> int {
    if len == 0 {
        0
    } else {
        (selected + delta) % len
    }
}

/// The row `delta` steps from `selected`, stopping at the ends.
pub open spec fn clamped(selected: int, len: int, delta: int) -> int {
    if len == 0 || selected + delta < 0 {
        0
    } else if selected + delta > len - 1 {
        len - 1
    } else {
        selected + delta
    }
}

/// Step through a list that wraps around.
pub fn wrap_selection(selected: usize, len: usize, delta: i64) -> (r: usize)
    ensures
        r == wrapped(selected as int, len as int, delta as int),
        len > 0 ==> r < len,
{
    if len == 0 {
        return 0;
    }
    let at: i128 = selected as i128 + delta as i128;
    if at >= 0 {
        (at as u128 % len as u128) as usize
    } else {
        let back: u128 = (-at) as u128 % len as u128;
        proof {
            lemma_negative_remainder(at as int, len as int);
        }
        if back == 0 {
            0
        } else {
            (len as u128 - back) as usize
        }
    }
}

proof fn lemma_negative_remainder(x: int, d: int)
    requires
        x < 0,
        d > 0,
    ensures
        x % d == (if (-x) % d == 0 {
            0
        } else {
            d - (-x) % d
        }),
{
    let m = (-x) % d;
    let q = (-x) / d;
    lemma_fundamental_div_mod(-x, d);
    if m == 0 {
        assert(x == (-q) * d + 0) by (nonlinear_arith)
            requires
                -x == d * q + m,
                m == 0,
        ;
        lemma_fundamental_div_mod_converse(x, d, -q, 0);
    } else {
        assert(x == (-q - 1) * d + (d - m)) by (nonlinear_arith)
            requires
                -x == d * q + m,
        ;
        lemma_fundamental_div_mod_converse(x, d, -q - 1, d - m);
    }
}

/// Step through a list, stopping at its ends.
pub fn clamp_selection(selected: usize, len: usize, delta: i64) -> (r: usize)
    ensures
        r == clamped(selected as int, len as int, delta as int),
        len > 0 ==> r < len,
{
    if len == 0 {
        return 0;
    }
    let at: i128 = selected as i128 + delta as i128;
    if at < 0 {
        0
    } else if at > (len - 1) as i128 {
        len - 1
    } else {
        at as usize
    }
}

/// Steps wrap at both ends: one step back from the first row is the last row,
/// one step on from the last row is the first, and a step on undoes a step back.
pub proof fn law_steps_wrap_around(selected: int, len: int)
    requires
        0 <= selected < len,
    ensures
        wrapped(0, len, -1) == len - 1,
        wrapped(len - 1, len, 1) == 0,
        wrapped(wrapped(selected, len, -1), len, 1) == selected,
        wrapped(wrapped(selected, len, 1), len, -1) == selected,
{
    lemma_fundamental_div_mod_converse(-1, len, -1, len - 1);
    lemma_fundamental_div_mod_converse(len, len, 1, 0);
    if selected > 0 {
        lemma_small_mod((selected - 1) as nat, len as nat);
        lemma_small_mod(selected as nat, len as nat);
    }
    if selected + 1 < len {
        lemma_small_mod((selected + 1) as nat, len as nat);
        lemma_small_mod(selected as nat, len as nat);
    }
}

/// Jumps stop at the ends and never wrap.
pub proof fn law_jumps_stop_at_the_ends(selected: int, len: int, delta: int)
    requires
        0 <= selected < len,
    ensures
        0 <= clamped(selected, len, delta) < len,
        delta >= 0 ==> selected <= clamped(selected, len, delta),
        delta <= 0 ==> clamped(selected, len, delta) <= selected,
        delta >= len ==> clamped(selected, len, delta) == len - 1,
        delta <= -len ==> clamped(selected, len, delta) == 0,
{
}

/// The first row of a command is kept.
pub proof fn law_first_of_a_command_is_kept<T: PaletteRow>(rows: Seq<T::V>, i: int)
    requires
        0 <= i < rows.len(),
        forall|j: int| 0 <= j < i ==> !T::same_command(#[trigger] rows[j], rows[i]),
    ensures
        first_of_each::<T>(rows).contains(rows[i]),
    decreases rows.len(),
{
    let front = rows.drop_last();
    let kept = first_of_each::<T>(front);
    if i < front.len() {
        assert forall|j: int| 0 <= j < i implies !T::same_command(#[trigger] front[j], front[i]) by {
            assert(front[j] == rows[j]);
        }
        law_first_of_a_command_is_kept::<T>(front, i);
        lemma_contains_push(kept, rows.last(), rows[i]);
    } else {
        lemma_first_of_each_subset::<T>(front);
        assert(!holds_command::<T>(kept, rows.last())) by {
            if holds_command::<T>(kept, rows.last()) {
                let k = choose|k: int|
                    0 <= k < kept.len() && T::same_command(#[trigger] kept[k], rows.last());
                assert(kept.contains(kept[k]));
                let j = choose|j: int| 0 <= j < front.len() && front[j] == kept[k];
                assert(rows[j] == front[j]);
            }
        }
        lemma_contains_push(kept, rows.last(), rows[i]);
    }
}

proof fn lemma_first_of_each_subset<T: PaletteRow>(rows: Seq<T::V>)
    ensures
        forall|x: T::V| #[trigger] first_of_each::<T>(rows).contains(x) ==> rows.contains(x),
    decreases rows.len(),
{
    if rows.len() > 0 {
        let front = rows.drop_last();
        let kept = first_of_each::<T>(front);
        lemma_first_of_each_subset::<T>(front);
        assert(front.push(rows.last()) =~= rows);
        assert forall|x: T::V| #[trigger] first_of_each::<T>(rows).contains(x) implies rows.contains(
            x,
        ) by {
            lemma_contains_push(kept, rows.last(), x);
            lemma_contains_push(front, rows.last(), x);
        }
    }
}

/// Of two rows on the list the upper one has the better score; of equal scores
/// the name that comes first; of equal names the place that comes first.
pub proof fn law_list_is_in_order(
    names: Seq<Seq<char>>,
    query: Seq<char>,
    ranked: Seq<usize>,
    a: int,
    b: int,
)
    requires
        is_ranking(names, query, ranked),
        0 <= a < b < ranked.len(),
    ensures
        ({
            let upper = names[ranked[a] as int];
            let lower = names[ranked[b] as int];
            &&& score(query, upper) is Some && score(query, lower) is Some
            &&& score(query, lower)->0 <= score(query, upper)->0
            &&& score(query, lower) == score(query, upper) ==> !text_less(lower, upper)
            &&& score(query, lower) == score(query, upper) && lower == upper ==> ranked[a]
                < ranked[b]
        }),
{
    assert(ranked.contains(ranked[a]) && ranked.contains(ranked[b]));
    assert(ranks_before(names, query, ranked[a] as int, ranked[b] as int));
    let upper = names[ranked[a] as int];
    let lower = names[ranked[b] as int];
    if text_less(upper, lower) {
        lemma_text_less_asymmetric(upper, lower);
    }
    lemma_text_less_irreflexive(upper);
}

/// A step goes to the row beside the selected one, a jump goes as far as it says
/// where the list has room for it.
pub proof fn law_moves_go_as_far_as_they_say(selected: int, len: int, delta: int)
    requires
        0 <= selected < len,
        0 <= selected + delta < len,
    ensures
        wrapped(selected, len, delta) == selected + delta,
        clamped(selected, len, delta) == selected + delta,
        wrapped(0, 0, delta) == 0,
        clamped(0, 0, delta) == 0,
{
    lemma_small_mod((selected + delta) as nat, len as nat);
}

} // verus!
