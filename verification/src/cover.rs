//! The search for a value that no arm of a match covers, as a mathematical function.
//!
//! The patterns of the arms form a table. The search goes by the first column: if no
//! row names a way of building the value there, the column is left out; else each way
//! in which such a value can be built is tried in turn, the ways that the column
//! names and one that it does not name.

use crate::data::Datas;
use crate::exhaustive::{Head, PatView};
use vstd::prelude::*;

verus! {

/// The size of a pattern: the number of ways of building a value that it names.
pub open spec fn size_v(p: PatView) -> nat
    decreases p,
{
    match p {
        PatView::Wild => 0,
        PatView::Ctor(_, parts) => 1 + sizes_v(parts, 0),
    }
}

/// The sizes of the patterns of `ps` from the position `from` on, added up.
pub open spec fn sizes_v(ps: Seq<PatView>, from: nat) -> nat
    decreases ps, ps.len() - from,
{
    if from >= ps.len() {
        0
    } else {
        size_v(ps[from as int]) + sizes_v(ps, from + 1)
    }
}

/// The sizes of the first `upto` rows of `rows`, added up.
pub open spec fn table_v(rows: Seq<Seq<PatView>>, upto: nat) -> nat
    decreases upto,
{
    if upto == 0 || upto > rows.len() {
        0
    } else {
        table_v(rows, (upto - 1) as nat) + sizes_v(rows[upto - 1], 0)
    }
}

/// The pattern for the part at the position `k` of a value that `p` matches.
pub open spec fn part_v(p: PatView, k: int) -> PatView {
    match p {
        PatView::Ctor(_, ps) => if 0 <= k < ps.len() {
            ps[k]
        } else {
            PatView::Wild
        },
        PatView::Wild => PatView::Wild,
    }
}

/// Whether the row `row` starts with a pattern for a value built in the way `h`.
pub open spec fn starts_v(row: Seq<PatView>, h: Head) -> bool {
    row.len() > 0 && match row[0] {
        PatView::Ctor(g, _) => g == h,
        PatView::Wild => false,
    }
}

/// Whether a row of the table starts with a pattern for a value built in the way `h`.
pub open spec fn names_v(rows: Seq<Seq<PatView>>, h: Head) -> bool {
    exists|i: int| 0 <= i < rows.len() && starts_v(#[trigger] rows[i], h)
}

/// Whether the row `row` fits a value built in the way `keep`, or, where `keep` names
/// no way, a value built in a way that no row names.
pub open spec fn fits_v(row: Seq<PatView>, keep: Option<Head>) -> bool {
    row.len() > 0 && (row[0] is Wild || match keep {
        Some(h) => starts_v(row, h),
        None => false,
    })
}

/// The row `row` with patterns for the `arity` parts of its first value in place of
/// the pattern for that value.
pub open spec fn expand_v(row: Seq<PatView>, arity: nat) -> Seq<PatView> {
    Seq::new(
        (arity + row.len() - 1) as nat,
        |k: int|
            if k < arity {
                part_v(row[0], k)
            } else {
                row[k - arity + 1]
            },
    )
}

/// The rows among the first `upto` rows of the table that fit `keep`, each expanded.
pub open spec fn narrow_v(
    rows: Seq<Seq<PatView>>,
    keep: Option<Head>,
    arity: nat,
    upto: nat,
) -> Seq<Seq<PatView>>
    decreases upto,
{
    if upto == 0 || upto > rows.len() {
        Seq::empty()
    } else if fits_v(rows[upto - 1], keep) {
        narrow_v(rows, keep, arity, (upto - 1) as nat).push(expand_v(rows[upto - 1], arity))
    } else {
        narrow_v(rows, keep, arity, (upto - 1) as nat)
    }
}

/// The way that the first row at or after `from` that starts with a pattern for a way
/// names, with the number of parts of that pattern.
pub open spec fn first_way_v(rows: Seq<Seq<PatView>>, from: nat) -> Option<(Head, nat)>
    decreases rows.len() - from,
{
    if from >= rows.len() {
        None
    } else if rows[from as int].len() > 0 && rows[from as int][0] is Ctor {
        Some((rows[from as int][0]->Ctor_0, rows[from as int][0]->Ctor_1.len()))
    } else {
        first_way_v(rows, from + 1)
    }
}

/// Whether the way `h` is a number or a character.
pub open spec fn is_literal(h: Head) -> bool {
    h is Nat || h is Int || h is Char
}

/// The numbers and characters that the first `upto` rows name in the first column, in
/// the order of the rows.
pub open spec fn named_v(rows: Seq<Seq<PatView>>, upto: nat) -> Seq<(Head, usize)>
    decreases upto,
{
    if upto == 0 || upto > rows.len() {
        Seq::empty()
    } else {
        let row = rows[upto - 1];
        if row.len() > 0 && row[0] is Ctor && is_literal(row[0]->Ctor_0) {
            named_v(rows, (upto - 1) as nat).push((row[0]->Ctor_0, 0usize))
        } else {
            named_v(rows, (upto - 1) as nat)
        }
    }
}

/// The number `n` as a value of the kind of `way`.
pub open spec fn numbered(way: Head, n: nat) -> Head {
    match way {
        Head::Nat(_) => Head::Nat(n as u64),
        Head::Int(_) => Head::Int(n as i64),
        _ => Head::Other,
    }
}

/// The first number from `n` on, of the kind of `way`, that the column does not name;
/// a value unlike any that is named where the search finds none.
pub open spec fn unnamed_v(rows: Seq<Seq<PatView>>, way: Head, n: nat) -> Head
    decreases 0x7fff_ffff - n,
{
    if n > rows.len() || n >= 0x7fff_ffff {
        Head::Other
    } else if !names_v(rows, numbered(way, n)) {
        numbered(way, n)
    } else {
        unnamed_v(rows, way, n + 1)
    }
}

/// The first `upto` constructors of `cons` that are declared, each with the number of
/// its fields.
pub open spec fn data_ways(datas: Datas, cons: Seq<usize>, upto: nat) -> Seq<(Head, usize)>
    decreases upto,
{
    if upto == 0 || upto > cons.len() {
        Seq::empty()
    } else {
        let c = cons[upto - 1];
        if c < datas.conses().len() {
            data_ways(datas, cons, (upto - 1) as nat).push(
                (Head::Variant(c), datas.conses()[c as int].fields@.len() as usize),
            )
        } else {
            data_ways(datas, cons, (upto - 1) as nat)
        }
    }
}

/// The ways in which a value of the first column can be built, in the order in which
/// they are tried: all the constructors of the data type of a constructor, in the
/// order of their declaration; the one way of a tuple; both booleans; both kinds of
/// list; of numbers and characters, those that the column names, and one that it
/// does not name. Each comes with the number of parts of a value built that way.
pub open spec fn ways_v(datas: Datas, rows: Seq<Seq<PatView>>, way: Head, parts: usize) -> Seq<
    (Head, usize),
> {
    match way {
        Head::Variant(c) => if c < datas.conses().len() {
            let data = datas.datas()[datas.conses()[c as int].data.0 as int];
            data_ways(datas, data.cons@, data.cons@.len())
        } else {
            seq![(way, parts)]
        },
        Head::Tuple => seq![(Head::Tuple, parts)],
        Head::True | Head::False => seq![(Head::True, 0usize), (Head::False, 0usize)],
        Head::Nil | Head::Link => seq![(Head::Nil, 0usize), (Head::Link, 2usize)],
        Head::Nat(_) | Head::Int(_) | Head::Char(_) => named_v(rows, rows.len()).push(
            (unnamed_v(rows, way, 0), 0usize),
        ),
        Head::Other => seq![(Head::Other, 0usize)],
    }
}

/// As many patterns for any value as `n`.
pub open spec fn wilds_v(n: nat) -> Seq<PatView> {
    Seq::new(n, |k: int| PatView::Wild)
}

/// The example for a value built in the way `way` from `arity` parts, in front of the
/// examples for the other columns: `found` holds the examples for the parts and then
/// those for the other columns.
pub open spec fn built_v(way: Head, arity: nat, found: Seq<PatView>) -> Seq<PatView> {
    seq![PatView::Ctor(way, found.take(arity as int))] + found.skip(arity as int)
}

/// Whether each row of the table has `cols` patterns.
pub open spec fn table_ok(rows: Seq<Seq<PatView>>, cols: nat) -> bool {
    forall|i: int| 0 <= i < rows.len() ==> (#[trigger] rows[i]).len() == cols
}

/// The sizes of two sequences of patterns, one after the other, add up.
pub proof fn lemma_sizes_v_concat(a: Seq<PatView>, b: Seq<PatView>, from: nat)
    requires
        from <= a.len(),
    ensures
        sizes_v(a + b, from) == sizes_v(a, from) + sizes_v(b, 0),
    decreases a.len() - from,
{
    if from < a.len() {
        lemma_sizes_v_concat(a, b, from + 1);
        assert((a + b)[from as int] == a[from as int]);
    } else {
        lemma_sizes_v_shift(a, b, 0);
    }
}

/// The size of the patterns after a sequence is the size of the patterns alone.
pub proof fn lemma_sizes_v_shift(a: Seq<PatView>, b: Seq<PatView>, from: nat)
    requires
        from <= b.len(),
    ensures
        sizes_v(a + b, a.len() + from) == sizes_v(b, from),
    decreases b.len() - from,
{
    if from < b.len() {
        lemma_sizes_v_shift(a, b, from + 1);
        assert((a + b)[(a.len() + from) as int] == b[from as int]);
    }
}

/// Patterns for the parts of a value are no larger than the patterns of the value.
pub proof fn lemma_parts_v(front: Seq<PatView>, ps: Seq<PatView>, from: nat)
    requires
        forall|k: int|
            0 <= k < front.len() ==> front[k] == (if k < ps.len() {
                ps[k]
            } else {
                PatView::Wild
            }),
    ensures
        sizes_v(front, from) <= sizes_v(ps, from),
    decreases front.len() - from,
{
    if from < front.len() {
        lemma_parts_v(front, ps, from + 1);
        assert(front[from as int] == (if from < ps.len() {
            ps[from as int]
        } else {
            PatView::Wild
        }));
        if from < ps.len() {
            assert(size_v(front[from as int]) == size_v(ps[from as int]));
        } else {
            assert(size_v(front[from as int]) == 0);
        }
    }
}

/// A row that is expanded is smaller than the row by one if the row starts with a
/// pattern that names a way, and no larger in any case.
pub proof fn lemma_expand_v(row: Seq<PatView>, arity: nat)
    requires
        row.len() > 0,
    ensures
        sizes_v(expand_v(row, arity), 0) + (if row[0] is Ctor {
            1nat
        } else {
            0nat
        }) <= sizes_v(row, 0),
{
    let o = expand_v(row, arity);
    let front = o.take(arity as int);
    let tail = o.skip(arity as int);
    assert(o =~= front + tail);
    lemma_sizes_v_concat(front, tail, 0);
    let head = seq![row[0]];
    let rest = row.skip(1);
    assert(row =~= head + rest);
    lemma_sizes_v_shift(head, rest, 0);
    assert(tail =~= rest);
    assert(sizes_v(head, 0) == size_v(row[0])) by {
        assert(sizes_v(head, 1) == 0);
        assert(head[0] == row[0]);
    }
    assert(sizes_v(row, 0) == size_v(row[0]) + sizes_v(row, 1));
    assert(sizes_v(row, 1) == sizes_v(rest, 0));
    match row[0] {
        PatView::Ctor(_, ps) => {
            lemma_parts_v(front, ps, 0);
            assert(size_v(row[0]) == 1 + sizes_v(ps, 0));
        },
        PatView::Wild => {
            lemma_parts_v(front, Seq::<PatView>::empty(), 0);
            assert(size_v(row[0]) == 0);
        },
    }
}

/// The rows that are kept are no larger than the table, and smaller where a row that
/// names a way is kept.
pub proof fn lemma_narrow_v(rows: Seq<Seq<PatView>>, keep: Option<Head>, arity: nat, upto: nat)
    requires
        upto <= rows.len(),
    ensures
        table_v(narrow_v(rows, keep, arity, upto), narrow_v(rows, keep, arity, upto).len())
            <= table_v(rows, upto),
        keep matches Some(h) && names_v(rows.take(upto as int), h) ==> table_v(
            narrow_v(rows, keep, arity, upto),
            narrow_v(rows, keep, arity, upto).len(),
        ) < table_v(rows, upto),
        forall|j: int|
            0 <= j < narrow_v(rows, keep, arity, upto).len() ==> exists|i: int|
                0 <= i < upto && fits_v(rows[i], keep) && #[trigger] narrow_v(
                    rows,
                    keep,
                    arity,
                    upto,
                )[j] == expand_v(rows[i], arity),
    decreases upto,
{
    if upto > 0 {
        lemma_narrow_v(rows, keep, arity, (upto - 1) as nat);
        let before = narrow_v(rows, keep, arity, (upto - 1) as nat);
        let now = narrow_v(rows, keep, arity, upto);
        let row = rows[upto - 1];
        if fits_v(row, keep) {
            lemma_expand_v(row, arity);
            assert(now.drop_last() =~= before);
            lemma_table_v_same(now, before, before.len());
        }
        if keep is Some && names_v(rows.take(upto as int), keep->0) {
            let h = keep->0;
            let x = choose|x: int|
                0 <= x < rows.take(upto as int).len() && starts_v(
                    #[trigger] rows.take(upto as int)[x],
                    h,
                );
            if x < upto - 1 {
                assert(rows.take(upto - 1)[x] == rows.take(upto as int)[x]);
                assert(names_v(rows.take(upto - 1), h));
            } else {
                assert(rows.take(upto as int)[x] == row);
            }
        }
        assert forall|j: int| 0 <= j < now.len() implies exists|i: int|
            0 <= i < upto && fits_v(rows[i], keep) && #[trigger] now[j] == expand_v(
                rows[i],
                arity,
            ) by {
            if j < before.len() {
                assert(now[j] == before[j]);
            } else {
                assert(now[j] == expand_v(rows[upto - 1], arity));
            }
        }
    }
}

/// The size of the first rows of a table depends on those rows only.
pub proof fn lemma_table_v_same(a: Seq<Seq<PatView>>, b: Seq<Seq<PatView>>, upto: nat)
    requires
        upto <= a.len(),
        upto <= b.len(),
        forall|i: int| 0 <= i < upto ==> a[i] == b[i],
    ensures
        table_v(a, upto) == table_v(b, upto),
    decreases upto,
{
    if upto > 0 {
        lemma_table_v_same(a, b, (upto - 1) as nat);
    }
}

/// The rows that are kept have the patterns of the other columns and of the parts.
pub proof fn lemma_narrow_ok(rows: Seq<Seq<PatView>>, keep: Option<Head>, arity: nat, cols: nat)
    requires
        cols > 0,
        table_ok(rows, cols),
    ensures
        table_ok(narrow_v(rows, keep, arity, rows.len()), (arity + cols - 1) as nat),
{
    lemma_narrow_v(rows, keep, arity, rows.len());
    let out = narrow_v(rows, keep, arity, rows.len());
    assert forall|j: int| 0 <= j < out.len() implies (#[trigger] out[j]).len() == arity + cols
        - 1 by {
        let i = choose|i: int|
            0 <= i < rows.len() && fits_v(rows[i], keep) && out[j] == expand_v(rows[i], arity);
        assert(rows[i].len() == cols);
    }
}

/// A search for values that no row of the table matches, where the table has `cols`
/// columns: an example for each column.
pub open spec fn search(datas: Datas, rows: Seq<Seq<PatView>>, cols: nat) -> Option<Seq<PatView>>
    decreases table_v(rows, rows.len()), cols, 1nat, 0nat,
    when table_ok(rows, cols)
{
    if cols == 0 {
        if rows.len() == 0 {
            Some(Seq::empty())
        } else {
            None
        }
    } else {
        match first_way_v(rows, 0) {
            None => {
                proof {
                    lemma_narrow_v(rows, None, 0, rows.len());
                    lemma_narrow_ok(rows, None, 0, cols);
                }
                match search(datas, narrow_v(rows, None, 0, rows.len()), (cols - 1) as nat) {
                    None => None,
                    Some(found) => Some(seq![PatView::Wild] + found),
                }
            },
            Some((way, parts)) => try_ways(
                datas,
                rows,
                cols,
                ways_v(datas, rows, way, parts as usize),
                0,
            ),
        }
    }
}

/// The search by the first column, for the ways of `tries` from the position `t` on:
/// what the first way that leads to uncovered values gives.
pub open spec fn try_ways(
    datas: Datas,
    rows: Seq<Seq<PatView>>,
    cols: nat,
    tries: Seq<(Head, usize)>,
    t: nat,
) -> Option<Seq<PatView>>
    decreases table_v(rows, rows.len()), cols, 0nat, tries.len() - t,
    when table_ok(rows, cols) && cols > 0
{
    if t >= tries.len() {
        None
    } else {
        let h = tries[t as int].0;
        let arity = tries[t as int].1 as nat;
        let here = if names_v(rows, h) {
            if arity + cols <= usize::MAX {
                proof {
                    lemma_narrow_v(rows, Some(h), arity, rows.len());
                    lemma_narrow_ok(rows, Some(h), arity, cols);
                    assert(rows.take(rows.len() as int) =~= rows);
                }
                match search(
                    datas,
                    narrow_v(rows, Some(h), arity, rows.len()),
                    (arity + cols - 1) as nat,
                ) {
                    Some(found) => Some(built_v(h, arity, found)),
                    None => None,
                }
            } else {
                None
            }
        } else {
            proof {
                lemma_narrow_v(rows, None, 0, rows.len());
                lemma_narrow_ok(rows, None, 0, cols);
            }
            match search(datas, narrow_v(rows, None, 0, rows.len()), (cols - 1) as nat) {
                Some(found) => Some(built_v(h, arity, wilds_v(arity) + found)),
                None => None,
            }
        };
        match here {
            Some(w) => Some(w),
            None => try_ways(datas, rows, cols, tries, t + 1),
        }
    }
}

/// The rows among the first `upto` rows of `rows` that have `cols` patterns.
pub open spec fn of_width(rows: Seq<Seq<PatView>>, cols: nat, upto: nat) -> Seq<Seq<PatView>>
    decreases upto,
{
    if upto == 0 || upto > rows.len() {
        Seq::empty()
    } else if rows[upto - 1].len() == cols {
        of_width(rows, cols, (upto - 1) as nat).push(rows[upto - 1])
    } else {
        of_width(rows, cols, (upto - 1) as nat)
    }
}

/// Whether a row of the table has a pattern for any value in each of its `cols`
/// columns.
pub open spec fn has_catch_all(rows: Seq<Seq<PatView>>, cols: nat) -> bool {
    exists|i: int| 0 <= i < rows.len() && #[trigger] rows[i] == wilds_v(cols)
}

/// A row of patterns for any value is kept whatever the table is narrowed to, and
/// is such a row afterwards.
pub proof fn lemma_narrow_keeps(
    rows: Seq<Seq<PatView>>,
    keep: Option<Head>,
    arity: nat,
    upto: nat,
    cols: nat,
)
    requires
        cols > 0,
        upto <= rows.len(),
        has_catch_all(rows.take(upto as int), cols),
    ensures
        has_catch_all(narrow_v(rows, keep, arity, upto), (arity + cols - 1) as nat),
    decreases upto,
{
    let part = rows.take(upto as int);
    let i = choose|i: int| 0 <= i < part.len() && #[trigger] part[i] == wilds_v(cols);
    let now = narrow_v(rows, keep, arity, upto);
    assert(upto > 0);
    let before = narrow_v(rows, keep, arity, (upto - 1) as nat);
    if i == upto - 1 {
        assert(rows[upto - 1] == part[i]);
        assert(rows[upto - 1][0] is Wild);
        assert(expand_v(rows[upto - 1], arity) =~= wilds_v((arity + cols - 1) as nat));
        assert(now[now.len() - 1] == wilds_v((arity + cols - 1) as nat));
    } else {
        assert(rows.take(upto - 1)[i] == part[i]);
        lemma_narrow_keeps(rows, keep, arity, (upto - 1) as nat, cols);
        let j = choose|j: int|
            0 <= j < before.len() && #[trigger] before[j] == wilds_v((arity + cols - 1) as nat);
        assert(now[j] == before[j]);
    }
}

/// An arm for any value makes a match complete: the search finds nothing in a table
/// that holds a row with a pattern for any value in each column.
pub proof fn lemma_catch_all(datas: Datas, rows: Seq<Seq<PatView>>, cols: nat)
    requires
        table_ok(rows, cols),
        has_catch_all(rows, cols),
    ensures
        search(datas, rows, cols) is None,
    decreases table_v(rows, rows.len()), cols, 1nat, 0nat,
{
    if cols > 0 {
        match first_way_v(rows, 0) {
            None => {
                lemma_narrow_v(rows, None, 0, rows.len());
                lemma_narrow_ok(rows, None, 0, cols);
                assert(rows.take(rows.len() as int) =~= rows);
                lemma_narrow_keeps(rows, None, 0, rows.len(), cols);
                lemma_catch_all(datas, narrow_v(rows, None, 0, rows.len()), (cols - 1) as nat);
            },
            Some((way, parts)) => {
                lemma_catch_all_ways(
                    datas,
                    rows,
                    cols,
                    ways_v(datas, rows, way, parts as usize),
                    0,
                );
            },
        }
    }
}

/// In a table that holds a row with a pattern for any value in each column, no way
/// of building the first value leads to a value that is left out.
pub proof fn lemma_catch_all_ways(
    datas: Datas,
    rows: Seq<Seq<PatView>>,
    cols: nat,
    tries: Seq<(Head, usize)>,
    t: nat,
)
    requires
        cols > 0,
        table_ok(rows, cols),
        has_catch_all(rows, cols),
    ensures
        try_ways(datas, rows, cols, tries, t) is None,
    decreases table_v(rows, rows.len()), cols, 0nat, tries.len() - t,
{
    if t < tries.len() {
        let h = tries[t as int].0;
        let arity = tries[t as int].1 as nat;
        assert(rows.take(rows.len() as int) =~= rows);
        if names_v(rows, h) {
            if arity + cols <= usize::MAX {
                lemma_narrow_v(rows, Some(h), arity, rows.len());
                lemma_narrow_ok(rows, Some(h), arity, cols);
                lemma_narrow_keeps(rows, Some(h), arity, rows.len(), cols);
                lemma_catch_all(
                    datas,
                    narrow_v(rows, Some(h), arity, rows.len()),
                    (arity + cols - 1) as nat,
                );
            }
        } else {
            lemma_narrow_v(rows, None, 0, rows.len());
            lemma_narrow_ok(rows, None, 0, cols);
            lemma_narrow_keeps(rows, None, 0, rows.len(), cols);
            lemma_catch_all(datas, narrow_v(rows, None, 0, rows.len()), (cols - 1) as nat);
        }
        lemma_catch_all_ways(datas, rows, cols, tries, t + 1);
    }
}

/// A table without rows leaves every value out: the search finds a value in it.
pub proof fn lemma_no_rows(datas: Datas, cols: nat)
    ensures
        search(datas, Seq::empty(), cols) == Some(wilds_v(cols)),
    decreases cols,
{
    let rows = Seq::<Seq<PatView>>::empty();
    assert(table_ok(rows, cols));
    if cols == 0 {
        assert(wilds_v(0) =~= Seq::<PatView>::empty());
    } else {
        assert(first_way_v(rows, 0) is None);
        assert(narrow_v(rows, None, 0, 0) =~= rows);
        lemma_no_rows(datas, (cols - 1) as nat);
        assert(seq![PatView::Wild] + wilds_v((cols - 1) as nat) =~= wilds_v(cols));
    }
}

/// The rows of one width that are taken from a table have that width, and each row
/// of that width is among them.
pub proof fn lemma_of_width(rows: Seq<Seq<PatView>>, cols: nat, upto: nat)
    requires
        upto <= rows.len(),
    ensures
        table_ok(of_width(rows, cols, upto), cols),
        forall|i: int|
            0 <= i < upto && (#[trigger] rows[i]).len() == cols ==> exists|j: int|
                0 <= j < of_width(rows, cols, upto).len() && of_width(rows, cols, upto)[j]
                    == rows[i],
    decreases upto,
{
    if upto > 0 {
        lemma_of_width(rows, cols, (upto - 1) as nat);
        let before = of_width(rows, cols, (upto - 1) as nat);
        let now = of_width(rows, cols, upto);
        assert forall|i: int| 0 <= i < upto && (#[trigger] rows[i]).len() == cols implies exists|
            j: int,
        | 0 <= j < now.len() && now[j] == rows[i] by {
            if i == upto - 1 {
                assert(now[now.len() - 1] == rows[i]);
            } else {
                let j = choose|j: int| 0 <= j < before.len() && before[j] == rows[i];
                assert(now[j] == rows[i]);
            }
        }
    }
}

/// The number of the fields of the constructor at `c`.
pub open spec fn fields_of(datas: Datas, c: usize) -> nat {
    datas.conses()[c as int].fields@.len() as usize as nat
}

/// A match on a data type with two constructors that names the first only leaves
/// the second out: the search finds the second constructor, applied to patterns for
/// any value.
pub proof fn lemma_other_constructor(datas: Datas, first: usize, second: usize)
    requires
        first != second,
        first < datas.conses().len(),
        second < datas.conses().len(),
        datas.datas()[datas.conses()[first as int].data.0 as int].cons@ == seq![first, second],
    ensures
        search(
            datas,
            seq![seq![PatView::Ctor(Head::Variant(first), wilds_v(fields_of(datas, first)))]],
            1,
        ) == Some(seq![PatView::Ctor(Head::Variant(second), wilds_v(fields_of(datas, second)))]),
{
    let n0 = fields_of(datas, first);
    let n1 = fields_of(datas, second);
    let h0 = Head::Variant(first);
    let h1 = Head::Variant(second);
    let row = seq![PatView::Ctor(h0, wilds_v(n0))];
    let rows = seq![row];
    let cons = datas.datas()[datas.conses()[first as int].data.0 as int].cons@;
    assert(table_ok(rows, 1));
    assert(rows.take(1) =~= rows);
    assert(first_way_v(rows, 0) == Some((h0, n0)));
    let tries = ways_v(datas, rows, h0, n0 as usize);
    assert(data_ways(datas, cons, 0) =~= Seq::empty());
    assert(data_ways(datas, cons, 1) =~= seq![(h0, n0 as usize)]);
    assert(tries =~= seq![(h0, n0 as usize), (h1, n1 as usize)]);
    assert(starts_v(rows[0], h0));
    assert(names_v(rows, h0));
    assert(!names_v(rows, h1));
    // The first constructor is named, and what is named covers it.
    let kept = narrow_v(rows, Some(h0), n0, 1);
    assert(narrow_v(rows, Some(h0), n0, 0) =~= Seq::empty());
    assert(expand_v(row, n0) =~= wilds_v(n0));
    assert(kept =~= seq![wilds_v(n0)]);
    assert(kept[0] == wilds_v(n0));
    assert(table_ok(kept, n0));
    lemma_catch_all(datas, kept, n0);
    // The second constructor is not named, and nothing covers it.
    let none = narrow_v(rows, None, 0, 1);
    assert(narrow_v(rows, None, 0, 0) =~= Seq::empty());
    assert(!fits_v(row, None));
    assert(none =~= Seq::<Seq<PatView>>::empty());
    assert(table_ok(none, 0));
    assert(search(datas, none, 0) == Some(Seq::<PatView>::empty()));
    assert(built_v(h1, n1, wilds_v(n1) + Seq::<PatView>::empty()) =~= seq![
        PatView::Ctor(h1, wilds_v(n1)),
    ]) by {
        assert((wilds_v(n1) + Seq::<PatView>::empty()).take(n1 as int) =~= wilds_v(n1));
        assert((wilds_v(n1) + Seq::<PatView>::empty()).skip(n1 as int) =~= Seq::empty());
    }
    assert(try_ways(datas, rows, 1, tries, 2) is None);
    assert(try_ways(datas, rows, 1, tries, 1) == Some(seq![PatView::Ctor(h1, wilds_v(n1))]));
    assert(try_ways(datas, rows, 1, tries, 0) == Some(seq![PatView::Ctor(h1, wilds_v(n1))]));
}

} // verus!
