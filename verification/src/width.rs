//! Display columns: how wide text is on a terminal, and how to cut it to fit.

use vstd::prelude::*;

use crate::text::{chars_of, control};

verus! {

/// Columns that a string occupies.
pub uninterp spec fn str_width(s: Seq<char>) -> usize;

/// Columns of a character on its own; `None` for a control character.
pub uninterp spec fn char_width(c: char) -> Option<usize>;

/// Printable ASCII and the ellipsis: characters that take one column wherever
/// they stand in a text.
pub open spec fn one_column(c: char) -> bool {
    ' ' <= c <= '~' || c == '\u{2026}'
}

/// A text made of one-column characters.
pub open spec fn plain_text(s: Seq<char>) -> bool {
    forall|i: int| 0 <= i < s.len() ==> one_column(#[trigger] s[i])
}

/// `unicode_width::UnicodeWidthStr::width` measures a string in columns. Its
/// value is a function of the characters alone. The crate folds from the last
/// character to the first, and a one-column character adds one column and
/// leaves no context behind: so a text of such characters is as wide as it is
/// long, and one at the end adds one column to what precedes it. A leading
/// space adds one column to what follows it.
#[verifier::external_body]
pub(crate) fn measure_str(s: &str) -> (w: usize)
    ensures
        w == str_width(s@),
        plain_text(s@) ==> w == s@.len(),
        s@.len() > 0 && one_column(s@.last()) ==> w == str_width(s@.drop_last()) + 1,
        s@.len() > 0 && s@.first() == ' ' ==> w == str_width(s@.drop_first()) + 1,
{
    unicode_width::UnicodeWidthStr::width(s)
}

/// `unicode_width::UnicodeWidthChar::width` measures one character: nothing for
/// a control character, one column for printable ASCII and the ellipsis.
#[verifier::external_body]
pub(crate) fn measure_char(c: char) -> (w: Option<usize>)
    ensures
        w == char_width(c),
        w is None <==> control(c),
        one_column(c) ==> w == Some(1usize),
{
    unicode_width::UnicodeWidthChar::width(c)
}

/// Columns of a string, as far as sixteen bits count.
pub open spec fn columns(s: Seq<char>) -> u16 {
    if str_width(s) > u16::MAX {
        u16::MAX
    } else {
        str_width(s) as u16
    }
}

/// Columns of a string, saturating at `u16::MAX`.
pub fn display_width(s: &str) -> (w: u16)
    ensures
        w == columns(s@),
        plain_text(s@) ==> str_width(s@) == s@.len(),
        s@.len() > 0 && one_column(s@.last()) ==> str_width(s@) == str_width(s@.drop_last()) + 1,
        s@.len() > 0 && s@.first() == ' ' ==> str_width(s@) == str_width(s@.drop_first()) + 1,
{
    let wide = measure_str(s);
    if wide > u16::MAX as usize {
        u16::MAX
    } else {
        wide as u16
    }
}

/// How the columns of a single character are counted when a text is cut.
#[derive(Debug, Clone, Copy, PartialEq, Eq, Structural)]
pub enum CellMeasure {
    /// The character on its own; a control character counts nothing.
    Bare,
    /// The character as a string of one character.
    Cell,
}

/// Columns that one character takes from the budget.
pub open spec fn cell_columns(m: CellMeasure, c: char) -> nat {
    match m {
        CellMeasure::Bare => match char_width(c) {
            Some(w) => w as nat,
            None => 0,
        },
        CellMeasure::Cell => columns(seq![c]) as nat,
    }
}

/// Columns of the characters of `s`, counted one by one.
pub open spec fn cells_width(m: CellMeasure, s: Seq<char>) -> nat
    decreases s.len(),
{
    if s.len() == 0 {
        0
    } else {
        cells_width(m, s.drop_last()) + cell_columns(m, s.last())
    }
}

/// `n` is the length of the longest start of `s` that takes at most `budget`
/// columns.
pub open spec fn is_fitting_prefix(m: CellMeasure, s: Seq<char>, budget: nat, n: nat) -> bool {
    &&& n <= s.len()
    &&& cells_width(m, s.take(n as int)) <= budget
    &&& n < s.len() ==> cells_width(m, s.take(n as int + 1)) > budget
}

/// The length of the longest start of `s` that takes at most `budget` columns.
pub open spec fn fitting_prefix(m: CellMeasure, s: Seq<char>, budget: nat) -> nat {
    choose|n: nat| is_fitting_prefix(m, s, budget, n)
}

pub proof fn lemma_cells_width_monotone(m: CellMeasure, s: Seq<char>, i: int, j: int)
    requires
        0 <= i <= j <= s.len(),
    ensures
        cells_width(m, s.take(i)) <= cells_width(m, s.take(j)),
    decreases j - i,
{
    if i < j {
        lemma_cells_width_monotone(m, s, i, j - 1);
        assert(s.take(j).drop_last() =~= s.take(j - 1));
    }
}

/// At most one length can be the longest fitting start.
pub proof fn lemma_fitting_prefix_unique(m: CellMeasure, s: Seq<char>, budget: nat, n: nat)
    requires
        is_fitting_prefix(m, s, budget, n),
    ensures
        fitting_prefix(m, s, budget) == n,
{
    let k = fitting_prefix(m, s, budget);
    assert(is_fitting_prefix(m, s, budget, k));
    if n < k {
        lemma_cells_width_monotone(m, s, n as int + 1, k as int);
    }
    if k < n {
        lemma_cells_width_monotone(m, s, k as int + 1, n as int);
    }
}

/// There is a longest fitting start.
pub proof fn lemma_fitting_prefix(m: CellMeasure, s: Seq<char>, budget: nat)
    ensures
        is_fitting_prefix(m, s, budget, fitting_prefix(m, s, budget)),
{
    assert(s.take(0) =~= Seq::<char>::empty());
    let n = lemma_find_prefix(m, s, budget, 0);
    assert(is_fitting_prefix(m, s, budget, n));
}

proof fn lemma_find_prefix(m: CellMeasure, s: Seq<char>, budget: nat, i: nat) -> (n: nat)
    requires
        i <= s.len(),
        cells_width(m, s.take(i as int)) <= budget,
    ensures
        is_fitting_prefix(m, s, budget, n),
    decreases s.len() - i,
{
    if i < s.len() && cells_width(m, s.take(i as int + 1)) <= budget {
        lemma_find_prefix(m, s, budget, i + 1)
    } else {
        i
    }
}

fn measure_cell(m: CellMeasure, c: char) -> (w: usize)
    ensures
        w == cell_columns(m, c),
        one_column(c) ==> w == 1,
{
    match m {
        CellMeasure::Bare => match measure_char(c) {
            Some(w) => w,
            None => 0,
        },
        CellMeasure::Cell => {
            let mut one = String::new();
            one.push(c);
            assert(one@ =~= seq![c]);
            display_width(one.as_str()) as usize
        },
    }
}

/// What is kept of a text that is too wide: the longest start that leaves a
/// column for the ellipsis.
pub open spec fn kept_before_ellipsis(m: CellMeasure, s: Seq<char>, max: nat) -> Seq<char> {
    s.take(fitting_prefix(m, s, (max - 1) as nat) as int)
}

/// A text that is too wide, cut to `max` columns with a closing ellipsis.
pub open spec fn ellipsized(m: CellMeasure, s: Seq<char>, max: nat) -> Seq<char> {
    if max == 0 {
        Seq::empty()
    } else {
        kept_before_ellipsis(m, s, max).push('\u{2026}')
    }
}

/// Cut a too wide text to `max` columns with a closing ellipsis.
pub fn ellipsize(m: CellMeasure, s: &str, max: usize) -> (r: String)
    ensures
        r@ == ellipsized(m, s@, max as nat),
        max > 0 ==> cells_width(m, kept_before_ellipsis(m, s@, max as nat)) <= max - 1,
        max > 0 && plain_text(s@) ==> r@.len() <= max && plain_text(r@),
        max > 0 ==> r@.len() > 0 && r@.last() == '\u{2026}' && r@.drop_last()
            == kept_before_ellipsis(m, s@, max as nat),
{
    let mut out = String::new();
    if max == 0 {
        return out;
    }
    let budget: usize = max - 1;
    let chars = chars_of(s);
    let mut used: usize = 0;
    let mut i: usize = 0;
    assert(s@.take(0) =~= Seq::<char>::empty());
    while i < chars.len()
        invariant
            chars@ == s@,
            budget == max - 1,
            i <= chars@.len(),
            out@ == s@.take(i as int),
            used == cells_width(m, s@.take(i as int)),
            used <= budget,
            plain_text(s@) ==> used == i,
        ensures
            i == chars@.len() || cells_width(m, s@.take(i + 1)) > budget,
        decreases chars@.len() - i,
    {
        let c = chars[i];
        let w = measure_cell(m, c);
        assert(s@.take(i + 1).drop_last() =~= s@.take(i as int));
        assert(s@.take(i + 1).last() == c);
        if w > budget - used {
            break;
        }
        out.push(c);
        used = used + w;
        i = i + 1;
        assert(s@.take(i as int) =~= s@.take(i - 1).push(c));
    }
    assert(is_fitting_prefix(m, s@, budget as nat, i as nat));
    proof {
        lemma_fitting_prefix_unique(m, s@, budget as nat, i as nat);
    }
    out.push('\u{2026}');
    assert(out@.drop_last() =~= s@.take(i as int));
    out
}

/// A text that is cut keeps its longest start that leaves a column for the
/// ellipsis behind it: one more character would take too many columns. Without a
/// column nothing is left.
pub proof fn law_cut_text_keeps_the_longest_start(m: CellMeasure, s: Seq<char>, max: nat)
    ensures
        max == 0 ==> ellipsized(m, s, max).len() == 0,
        max > 0 ==> {
            let cut = ellipsized(m, s, max);
            let kept = cut.drop_last();
            let n = kept.len() as int;
            &&& cut.len() > 0 && cut.last() == '\u{2026}'
            &&& kept == s.take(n) && n <= s.len()
            &&& cells_width(m, kept) + 1 <= max
            &&& n < s.len() ==> cells_width(m, s.take(n + 1)) + 1 > max
        },
{
    if max > 0 {
        lemma_fitting_prefix(m, s, (max - 1) as nat);
        let n = fitting_prefix(m, s, (max - 1) as nat) as int;
        assert(ellipsized(m, s, max).drop_last() =~= s.take(n));
    }
}

/// The columns of a text are counted character by character.
pub proof fn law_columns_add_up(m: CellMeasure, s: Seq<char>, c: char)
    ensures
        cells_width(m, Seq::empty()) == 0,
        cells_width(m, s.push(c)) == cells_width(m, s) + cell_columns(m, c),
        columns(s) == (if str_width(s) > 0xffff {
            0xffffusize
        } else {
            str_width(s)
        }),
{
    assert(s.push(c).drop_last() =~= s);
}

} // verus!
