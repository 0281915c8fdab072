//! Whether the arms of a match cover every value.
//!
//! The patterns of the arms form a table, a row for each arm and a column for each
//! value that is matched. The search for a value that no row matches goes by the
//! first column: for each way a value can be built, the rows that fit it are kept and
//! the search goes on in the parts of the value. What it finds is given as a pattern
//! that is at odds with every row.

use crate::cover::{
    built_v, data_ways, expand_v, first_way_v, named_v, names_v, narrow_v, numbered, of_width,
    search, starts_v, table_ok, try_ways, unnamed_v, ways_v, wilds_v,
};
use crate::data::Datas;
use crate::example::{examples_view, ExamplePat, ExampleView};
use crate::hir::{Literal, PatKind, Pattern};
use crate::span::Ident;
use vstd::prelude::*;

verus! {

/// The way a value is built.
#[derive(Clone, Copy, Debug, PartialEq, Eq, Structural)]
pub enum Head {
    /// The constructor at a position in the registry.
    Variant(usize),
    Tuple,
    True,
    False,
    Nat(u64),
    Int(i64),
    Char(char),
    /// The empty list.
    Nil,
    /// A list of a first item and the list of the others.
    Link,
    /// A value unlike any that a pattern of its column names.
    Other,
}

/// A pattern: any value, or a value built in a way, with a pattern for each part.
#[derive(Debug, PartialEq, Eq)]
pub enum Pat {
    Wild,
    Ctor(Head, Vec<Pat>),
}

/// What a pattern is, as a mathematical value.
pub enum PatView {
    Wild,
    Ctor(Head, Seq<PatView>),
}

/// The values of a sequence of patterns.
pub open spec fn pats_view(s: Seq<Pat>) -> Seq<PatView>
    decreases s,
{
    Seq::new(s.len(), |i: int| if 0 <= i < s.len() { pat_view(s[i]) } else { arbitrary() })
}

/// The value of a pattern.
pub open spec fn pat_view(p: Pat) -> PatView
    decreases p,
{
    match p {
        Pat::Wild => PatView::Wild,
        Pat::Ctor(h, parts) => PatView::Ctor(h, pats_view(parts@)),
    }
}

impl View for Pat {
    type V = PatView;

    open spec fn view(&self) -> PatView {
        pat_view(*self)
    }
}

/// The way of building the value of a literal.
pub open spec fn literal_head(l: Literal) -> Head {
    match l {
        Literal::Bool(b) => if b {
            Head::True
        } else {
            Head::False
        },
        Literal::Nat(n) => Head::Nat(n),
        Literal::Int(n) => Head::Int(n),
        Literal::Char(c) => Head::Char(c),
    }
}

/// The list pattern of the first `upto` patterns of `items` followed by the list
/// `rest`: a first item and the list of the others, down to `rest`.
pub open spec fn linked(items: Seq<PatView>, upto: nat, rest: PatView) -> PatView
    decreases upto,
{
    if upto == 0 || upto > items.len() {
        rest
    } else {
        linked(
            items,
            (upto - 1) as nat,
            PatView::Ctor(Head::Link, seq![items[upto - 1], rest]),
        )
    }
}

/// The pattern `p` as the table takes it: a literal and a constructor are ways of
/// building a value; a list is the empty list, or a first item and the list of the
/// others. A constructor that is not declared is taken as a pattern for any value.
pub open spec fn lowered(datas: Datas, p: Pattern) -> PatView
    decreases p,
{
    match p.kind {
        PatKind::Wildcard => PatView::Wild,
        PatKind::Literal(l) => PatView::Ctor(literal_head(l), Seq::empty()),
        PatKind::Tuple(items) => PatView::Ctor(Head::Tuple, lowered_all(datas, items@)),
        PatKind::ListExact(items) => linked(
            lowered_all(datas, items@),
            items@.len(),
            PatView::Ctor(Head::Nil, Seq::empty()),
        ),
        PatKind::ListFront(items, tail) => linked(
            lowered_all(datas, items@),
            items@.len(),
            match tail {
                Some(t) => lowered(datas, *t),
                None => PatView::Wild,
            },
        ),
        PatKind::Cons(name, fields) => match datas.cons_of(name.inner) {
            Some(c) => PatView::Ctor(Head::Variant(c as usize), lowered_all(datas, fields@)),
            None => PatView::Wild,
        },
    }
}

/// The patterns of `ps`, each as the table takes it.
pub open spec fn lowered_all(datas: Datas, ps: Seq<Pattern>) -> Seq<PatView>
    decreases ps,
{
    Seq::new(
        ps.len(),
        |i: int|
            if 0 <= i < ps.len() {
                lowered(datas, ps[i])
            } else {
                arbitrary()
            },
    )
}

/// The size of a pattern: the number of ways of building a value that it names.
pub open spec fn psize(p: Pat) -> nat
    decreases p,
{
    match p {
        Pat::Wild => 0,
        Pat::Ctor(_, parts) => 1 + sizes(parts@, 0),
    }
}

/// The sizes of the patterns of `ps` from the position `from` on, added up.
pub open spec fn sizes(ps: Seq<Pat>, from: nat) -> nat
    decreases ps, ps.len() - from,
{
    if from >= ps.len() {
        0
    } else {
        psize(ps[from as int]) + sizes(ps, from + 1)
    }
}

/// Whether the pattern `p` is at odds with the example `w`: no value that `w` stands
/// for is matched by `p`, because somewhere `p` asks for a value built in another way
/// than the example is.
pub open spec fn clashes(p: Pat, w: Pat) -> bool
    decreases p,
{
    match (p, w) {
        (Pat::Ctor(h, ps), Pat::Ctor(g, ws)) => g == Head::Other || h != g || exists|k: int|
            0 <= k < ps@.len() && k < ws@.len() && clashes(#[trigger] ps@[k], ws@[k]),
        _ => false,
    }
}

/// The patterns that the references of `row` refer to.
pub open spec fn deref(row: Seq<&Pat>) -> Seq<Pat> {
    Seq::new(row.len(), |k: int| *row[k])
}

/// Whether the row `row` is at odds with the examples `w`: one of its patterns is at
/// odds with the example of its column.
pub open spec fn row_clashes(row: Seq<Pat>, w: Seq<Pat>) -> bool {
    exists|k: int| 0 <= k < row.len() && k < w.len() && clashes(#[trigger] row[k], w[k])
}

/// The sizes of the rows of `rows` from the position `from` on, added up.
pub open spec fn table_size(rows: Seq<Vec<&Pat>>, from: nat) -> nat
    decreases rows.len() - from,
{
    if from >= rows.len() {
        0
    } else {
        sizes(deref(rows[from as int]@), 0) + table_size(rows, from + 1)
    }
}

/// The sizes of two sequences of patterns, one after the other, add up.
pub proof fn lemma_sizes_concat(a: Seq<Pat>, b: Seq<Pat>, from: nat)
    requires
        from <= a.len(),
    ensures
        sizes(a + b, from) == sizes(a, from) + sizes(b, 0),
    decreases a.len() - from,
{
    if from < a.len() {
        lemma_sizes_concat(a, b, from + 1);
        assert((a + b)[from as int] == a[from as int]);
    } else {
        lemma_sizes_shift(a, b, 0);
    }
}

/// The size of the patterns after a sequence is the size of the patterns alone.
pub proof fn lemma_sizes_shift(a: Seq<Pat>, b: Seq<Pat>, from: nat)
    requires
        from <= b.len(),
    ensures
        sizes(a + b, a.len() + from) == sizes(b, from),
    decreases b.len() - from,
{
    if from < b.len() {
        lemma_sizes_shift(a, b, from + 1);
        assert((a + b)[(a.len() + from) as int] == b[from as int]);
    }
}

/// Patterns that match any value have no size.
pub proof fn lemma_sizes_wild(a: Seq<Pat>, from: nat)
    requires
        forall|k: int| 0 <= k < a.len() ==> a[k] == Pat::Wild,
    ensures
        sizes(a, from) == 0,
    decreases a.len() - from,
{
    if from < a.len() {
        lemma_sizes_wild(a, from + 1);
        assert(a[from as int] == Pat::Wild);
        assert(psize(a[from as int]) == 0);
    }
}

/// The first patterns of a sequence are no larger than the sequence.
pub proof fn lemma_sizes_take(a: Seq<Pat>, n: nat, from: nat)
    requires
        from <= n <= a.len(),
    ensures
        sizes(a.take(n as int), from) <= sizes(a, from),
    decreases n - from,
{
    if from < n {
        lemma_sizes_take(a, n, from + 1);
        assert(a.take(n as int)[from as int] == a[from as int]);
    }
}

/// The size of a table is the size of a first part of it and of the rest.
pub proof fn lemma_table_split(rows: Seq<Vec<&Pat>>, from: nat, at: nat)
    requires
        from <= at <= rows.len(),
    ensures
        table_size(rows, from) == table_size(rows.take(at as int), from) + table_size(rows, at),
    decreases at - from,
{
    if from < at {
        lemma_table_split(rows, from + 1, at);
        assert(rows.take(at as int)[from as int] == rows[from as int]);
    }
}

/// The size of a table with one more row.
pub proof fn lemma_table_push(rows: Seq<Vec<&Pat>>, row: Vec<&Pat>, from: nat)
    requires
        from <= rows.len(),
    ensures
        table_size(rows.push(row), from) == table_size(rows, from) + sizes(deref(row@), 0),
    decreases rows.len() - from,
{
    if from < rows.len() {
        lemma_table_push(rows, row, from + 1);
        assert(rows.push(row)[from as int] == rows[from as int]);
    } else {
        assert(rows.push(row)[from as int] == row);
        assert(table_size(rows.push(row), from + 1) == 0);
    }
}

/// The pattern for the part at the position `k` of a value that `p` matches.
pub open spec fn part(p: Pat, k: int) -> Pat {
    match p {
        Pat::Ctor(_, ps) => if 0 <= k < ps@.len() {
            ps@[k]
        } else {
            Pat::Wild
        },
        Pat::Wild => Pat::Wild,
    }
}

/// Whether the row `row` starts with a pattern for a value built in the way `h`.
pub open spec fn starts_with(row: Seq<&Pat>, h: Head) -> bool {
    row.len() > 0 && match *row[0] {
        Pat::Ctor(g, _) => g == h,
        Pat::Wild => false,
    }
}

/// Whether a row of the table starts with a pattern for a value built in the way `h`.
pub open spec fn column_names(rows: Seq<Vec<&Pat>>, h: Head) -> bool {
    exists|i: int| 0 <= i < rows.len() && starts_with(#[trigger] rows[i]@, h)
}

/// Whether the row `out` is the row `row` with patterns for the `arity` parts of its
/// first value in place of the pattern for that value.
pub open spec fn expands(out: Seq<&Pat>, row: Seq<&Pat>, arity: nat) -> bool {
    &&& row.len() > 0
    &&& out.len() == arity + row.len() - 1
    &&& forall|k: int| 0 <= k < arity ==> *(#[trigger] out[k]) == part(*row[0], k)
    &&& forall|k: int| arity <= k < out.len() ==> (#[trigger] out[k]) == row[k - arity + 1]
}

/// Patterns for the parts of a value are no larger than the pattern for the value.
proof fn lemma_parts_size(front: Seq<Pat>, ps: Seq<Pat>, from: nat)
    requires
        forall|k: int|
            0 <= k < front.len() ==> front[k] == (if k < ps.len() {
                ps[k]
            } else {
                Pat::Wild
            }),
    ensures
        sizes(front, from) <= sizes(ps, from),
    decreases front.len() - from,
{
    if from < front.len() {
        lemma_parts_size(front, ps, from + 1);
        assert(front[from as int] == (if from < ps.len() {
            ps[from as int]
        } else {
            Pat::Wild
        }));
        if from < ps.len() {
            assert(psize(front[from as int]) == psize(ps[from as int]));
        } else {
            assert(psize(front[from as int]) == 0);
        }
    }
}

/// A row that expands a row is smaller than the row by one if the row starts with a
/// pattern that names a way, and no larger in any case.
proof fn lemma_expands_size(out: Seq<&Pat>, row: Seq<&Pat>, arity: nat)
    requires
        expands(out, row, arity),
    ensures
        sizes(deref(out), 0) + (if *row[0] is Ctor {
            1nat
        } else {
            0nat
        }) <= sizes(deref(row), 0),
{
    let o = deref(out);
    let r = deref(row);
    let front = o.take(arity as int);
    let tail = o.skip(arity as int);
    assert(o =~= front + tail);
    lemma_sizes_concat(front, tail, 0);
    let head = seq![r[0]];
    let rest = r.skip(1);
    assert(r =~= head + rest);
    lemma_sizes_shift(head, rest, 0);
    assert(tail =~= rest) by {
        assert forall|k: int| 0 <= k < tail.len() implies tail[k] == rest[k] by {
            assert(out[k + arity] == row[k + 1]);
        }
    }
    assert(sizes(head, 0) == psize(r[0])) by {
        assert(sizes(head, 1) == 0);
        assert(head[0] == r[0]);
    }
    assert(sizes(r, 0) == psize(r[0]) + sizes(r, 1));
    assert(sizes(r, 1) == sizes(rest, 0));
    match *row[0] {
        Pat::Ctor(_, ps) => {
            lemma_parts_size(front, ps@, 0);
            assert(psize(r[0]) == 1 + sizes(ps@, 0));
        },
        Pat::Wild => {
            lemma_sizes_wild(front, 0);
            assert(psize(r[0]) == 0);
        },
    }
}

/// The values of the patterns that the references of `row` refer to.
pub open spec fn row_v(row: Seq<&Pat>) -> Seq<PatView> {
    Seq::new(row.len(), |k: int| (*row[k])@)
}

/// The values of the rows of a table.
pub open spec fn matrix_v(rows: Seq<Vec<&Pat>>) -> Seq<Seq<PatView>> {
    Seq::new(rows.len(), |i: int| row_v(rows[i]@))
}

/// The values of the rows of a table of patterns.
pub open spec fn table_view(rows: Seq<Vec<Pat>>) -> Seq<Seq<PatView>> {
    Seq::new(rows.len(), |i: int| pats_view(rows[i]@))
}

/// The value of what a search finds.
pub open spec fn found_v(r: Option<Vec<Pat>>) -> Option<Seq<PatView>> {
    match r {
        Some(w) => Some(pats_view(w@)),
        None => None,
    }
}

/// The way that the first pattern of `row` names, with the number of its parts.
fn head_at(row: &Vec<&Pat>) -> (r: Option<(Head, usize)>)
    requires
        row@.len() > 0,
    ensures
        match r {
            Some((h, n)) => starts_with(row@, h) && part(*row@[0], n as int) == Pat::Wild
                && *row@[0] is Ctor && (*row@[0])->Ctor_1@.len() == n && row_v(row@)[0]
                == PatView::Ctor(h, pats_view((*row@[0])->Ctor_1@)) && starts_v(row_v(row@), h),
            None => *row@[0] is Wild && row_v(row@)[0] is Wild,
        },
{
    match row[0] {
        Pat::Ctor(h, ps) => Some((*h, ps.len())),
        Pat::Wild => None,
    }
}

/// Whether a row of the table starts with a pattern for a value built in the way `h`.
fn column_has(rows: &Vec<Vec<&Pat>>, h: Head) -> (r: bool)
    requires
        forall|i: int| 0 <= i < rows@.len() ==> (#[trigger] rows@[i])@.len() > 0,
    ensures
        r == column_names(rows@, h),
        r == names_v(matrix_v(rows@), h),
{
    let mut i: usize = 0;
    while i < rows.len()
        invariant
            i <= rows.len(),
            forall|j: int| 0 <= j < rows@.len() ==> (#[trigger] rows@[j])@.len() > 0,
            forall|j: int| 0 <= j < i ==> !starts_with(#[trigger] rows@[j]@, h),
            forall|j: int| 0 <= j < i ==> !starts_v(#[trigger] matrix_v(rows@)[j], h),
        decreases rows.len() - i,
    {
        match head_at(&rows[i]) {
            Some((g, _)) => {
                if g == h {
                    assert(starts_with(rows@[i as int]@, h));
                    assert(starts_v(matrix_v(rows@)[i as int], h));
                    return true;
                }
            },
            None => {},
        }
        assert(!starts_v(matrix_v(rows@)[i as int], h));
        i += 1;
    }
    false
}

/// The row `row` with patterns for the `arity` parts of its first value in place of
/// the pattern for that value.
fn expand_row<'a>(row: &Vec<&'a Pat>, arity: usize, wild: &'a Pat) -> (out: Vec<&'a Pat>)
    requires
        row@.len() > 0,
        *wild == Pat::Wild,
    ensures
        expands(out@, row@, arity as nat),
        row_v(out@) == expand_v(row_v(row@), arity as nat),
{
    let mut out: Vec<&'a Pat> = Vec::new();
    let mut k: usize = 0;
    while k < arity
        invariant
            k <= arity,
            row@.len() > 0,
            *wild == Pat::Wild,
            out@.len() == k,
            forall|j: int| 0 <= j < k ==> *(#[trigger] out@[j]) == part(*row@[0], j),
        decreases arity - k,
    {
        let p: &'a Pat = match row[0] {
            Pat::Ctor(_, ps) => if k < ps.len() {
                &ps[k]
            } else {
                wild
            },
            Pat::Wild => wild,
        };
        out.push(p);
        k += 1;
    }
    let mut i: usize = 1;
    while i < row.len()
        invariant
            1 <= i <= row.len(),
            out@.len() == arity + i - 1,
            forall|j: int| 0 <= j < arity ==> *(#[trigger] out@[j]) == part(*row@[0], j),
            forall|j: int| arity <= j < out@.len() ==> (#[trigger] out@[j]) == row@[j - arity + 1],
        decreases row.len() - i,
    {
        out.push(row[i]);
        i += 1;
    }
    proof {
        let want = expand_v(row_v(row@), arity as nat);
        assert forall|k: int| 0 <= k < out@.len() implies row_v(out@)[k] == want[k] by {
            if k < arity {
                assert(*out@[k] == part(*row@[0], k));
                match *row@[0] {
                    Pat::Ctor(_, ps) => {
                        if k < ps@.len() {
                            assert(pats_view(ps@)[k] == ps@[k]@);
                        }
                    },
                    Pat::Wild => {},
                }
            } else {
                assert(out@[k] == row@[k - arity + 1]);
            }
        }
        assert(row_v(out@) =~= want);
    }
    out
}

/// The rows of the table that fit a value built in the way `keep`, or, where `keep`
/// names no way, a value built in a way that no row names: the rows that start with
/// a pattern for any value, and those that start with a pattern for `keep`. Each is
/// given with patterns for the `arity` parts of the value in place of its first
/// pattern. With the rows comes, for each row of the table, its position among them.
fn narrow<'a>(rows: &Vec<Vec<&'a Pat>>, keep: Option<Head>, arity: usize, wild: &'a Pat) -> (r: (
    Vec<Vec<&'a Pat>>,
    Ghost<Seq<int>>,
))
    requires
        forall|i: int| 0 <= i < rows@.len() ==> (#[trigger] rows@[i])@.len() > 0,
        *wild == Pat::Wild,
    ensures
        r.1@.len() == rows@.len(),
        matrix_v(r.0@) == narrow_v(matrix_v(rows@), keep, arity as nat, rows@.len()),
        table_size(r.0@, 0) <= table_size(rows@, 0),
        keep matches Some(h) && column_names(rows@, h) ==> table_size(r.0@, 0) < table_size(
            rows@,
            0,
        ),
        forall|i: int|
            0 <= i < rows@.len() ==> {
                let fits = *rows@[i]@[0] is Wild || (keep matches Some(h) && starts_with(
                    rows@[i]@,
                    h,
                ));
                if fits {
                    0 <= #[trigger] r.1@[i] < r.0@.len() && expands(
                        r.0@[r.1@[i]]@,
                        rows@[i]@,
                        arity as nat,
                    )
                } else {
                    r.1@[i] == -1
                }
            },
        forall|j: int|
            0 <= j < r.0@.len() ==> exists|i: int|
                0 <= i < rows@.len() && expands((#[trigger] r.0@[j])@, rows@[i]@, arity as nat),
{
    let mut out: Vec<Vec<&'a Pat>> = Vec::new();
    let ghost mut image: Seq<int> = Seq::empty();
    let ghost mut hits: nat = 0;
    let mut i: usize = 0;
    while i < rows.len()
        invariant
            i <= rows.len(),
            *wild == Pat::Wild,
            forall|j: int| 0 <= j < rows@.len() ==> (#[trigger] rows@[j])@.len() > 0,
            image.len() == i,
            matrix_v(out@) == narrow_v(matrix_v(rows@), keep, arity as nat, i as nat),
            table_size(out@, 0) + hits <= table_size(rows@.take(i as int), 0),
            keep matches Some(h) && column_names(rows@.take(i as int), h) ==> hits > 0,
            forall|j: int|
                0 <= j < i ==> {
                    let fits = *rows@[j]@[0] is Wild || (keep matches Some(h) && starts_with(
                        rows@[j]@,
                        h,
                    ));
                    if fits {
                        0 <= #[trigger] image[j] < out@.len() && expands(
                            out@[image[j]]@,
                            rows@[j]@,
                            arity as nat,
                        )
                    } else {
                        image[j] == -1
                    }
                },
            forall|j: int|
                0 <= j < out@.len() ==> exists|x: int|
                    0 <= x < rows@.len() && expands((#[trigger] out@[j])@, rows@[x]@, arity as nat),
        decreases rows.len() - i,
    {
        let ghost before = out@;
        let fits = match head_at(&rows[i]) {
            None => true,
            Some((g, _)) => match keep {
                Some(h) => g == h,
                None => false,
            },
        };
        proof {
            assert(matrix_v(rows@)[i as int] == row_v(rows@[i as int]@));
            assert(fits == crate::cover::fits_v(matrix_v(rows@)[i as int], keep));
        }
        proof {
            let now = rows@.take(i + 1);
            let was = rows@.take(i as int);
            assert(now =~= was.push(rows@[i as int]));
            lemma_table_push(was, rows@[i as int], 0);
            if keep is Some && column_names(now, keep->0) {
                let h = keep->0;
                let x = choose|x: int| 0 <= x < now.len() && starts_with(#[trigger] now[x]@, h);
                if x < i {
                    assert(was[x] == now[x]);
                    assert(column_names(was, h));
                }
            }
        }
        if fits {
            let row = expand_row(&rows[i], arity, wild);
            proof {
                lemma_expands_size(row@, rows@[i as int]@, arity as nat);
                lemma_table_push(before, row, 0);
                image = image.push(before.len() as int);
                if *rows@[i as int]@[0] is Ctor {
                    hits = hits + 1;
                }
            }
            out.push(row);
            proof {
                assert(matrix_v(out@) =~= matrix_v(before).push(row_v(row@)));
                assert forall|j: int| 0 <= j < out@.len() implies exists|x: int|
                    0 <= x < rows@.len() && expands(
                        (#[trigger] out@[j])@,
                        rows@[x]@,
                        arity as nat,
                    ) by {
                    if j < before.len() {
                        assert(out@[j] == before[j]);
                    } else {
                        assert(expands(out@[j]@, rows@[i as int]@, arity as nat));
                    }
                }
                assert forall|j: int| 0 <= j < i + 1 implies {
                    let f = *rows@[j]@[0] is Wild || (keep matches Some(h) && starts_with(
                        rows@[j]@,
                        h,
                    ));
                    if f {
                        0 <= #[trigger] image[j] < out@.len() && expands(
                            out@[image[j]]@,
                            rows@[j]@,
                            arity as nat,
                        )
                    } else {
                        image[j] == -1
                    }
                } by {
                    if j < i {
                        assert(image[j] == image.drop_last()[j]);
                        if image[j] >= 0 {
                            assert(out@[image[j]] == before[image[j]]);
                        }
                    }
                }
            }
        } else {
            proof {
                image = image.push(-1);
                assert forall|j: int| 0 <= j < i + 1 implies {
                    let f = *rows@[j]@[0] is Wild || (keep matches Some(h) && starts_with(
                        rows@[j]@,
                        h,
                    ));
                    if f {
                        0 <= #[trigger] image[j] < out@.len() && expands(
                            out@[image[j]]@,
                            rows@[j]@,
                            arity as nat,
                        )
                    } else {
                        image[j] == -1
                    }
                } by {
                    if j < i {
                        assert(image[j] == image.drop_last()[j]);
                    }
                }
            }
        }
        i += 1;
    }
    proof {
        assert(rows@.take(i as int) =~= rows@);
    }
    (out, Ghost(image))
}

/// The way that the first row that starts with a pattern for a way names, with the
/// number of parts of that pattern.
fn first_way(rows: &Vec<Vec<&Pat>>) -> (r: Option<(Head, usize)>)
    requires
        forall|i: int| 0 <= i < rows@.len() ==> (#[trigger] rows@[i])@.len() > 0,
    ensures
        r is None ==> forall|i: int| 0 <= i < rows@.len() ==> *(#[trigger] rows@[i])@[0] is Wild,
        match r {
            Some((h, n)) => first_way_v(matrix_v(rows@), 0) == Some((h, n as nat)),
            None => first_way_v(matrix_v(rows@), 0) is None,
        },
{
    let mut i: usize = 0;
    while i < rows.len()
        invariant
            i <= rows.len(),
            forall|j: int| 0 <= j < rows@.len() ==> (#[trigger] rows@[j])@.len() > 0,
            forall|j: int| 0 <= j < i ==> *(#[trigger] rows@[j])@[0] is Wild,
            first_way_v(matrix_v(rows@), 0) == first_way_v(matrix_v(rows@), i as nat),
        decreases rows.len() - i,
    {
        proof {
            assert(matrix_v(rows@)[i as int] == row_v(rows@[i as int]@));
        }
        match head_at(&rows[i]) {
            Some(found) => {
                proof {
                    assert(pats_view((*rows@[i as int]@[0])->Ctor_1@).len() == found.1);
                }
                return Some(found);
            },
            None => {},
        }
        i += 1;
    }
    None
}

/// The ways in which a value of the first column can be built, in the order in which
/// they are tried, each with the number of parts of a value built that way.
fn ways(datas: &Datas, rows: &Vec<Vec<&Pat>>, way: Head, parts: usize) -> (r: Vec<(Head, usize)>)
    requires
        datas.wf(),
        forall|i: int| 0 <= i < rows@.len() ==> (#[trigger] rows@[i])@.len() > 0,
    ensures
        r@ == ways_v(*datas, matrix_v(rows@), way, parts),
{
    let ghost m = matrix_v(rows@);
    let mut out: Vec<(Head, usize)> = Vec::new();
    match way {
        Head::Variant(c) => {
            if c < datas.cons_count() {
                let data = datas.get_data(datas.get_cons(c).data);
                let mut k: usize = 0;
                while k < data.cons.len()
                    invariant
                        k <= data.cons.len(),
                        out@ == data_ways(*datas, data.cons@, k as nat),
                    decreases data.cons.len() - k,
                {
                    let other = data.cons[k];
                    if other < datas.cons_count() {
                        out.push((Head::Variant(other), datas.get_cons(other).fields.len()));
                    }
                    k += 1;
                }
            } else {
                out.push((way, parts));
                assert(out@ =~= seq![(way, parts)]);
            }
        },
        Head::Tuple => {
            out.push((Head::Tuple, parts));
            assert(out@ =~= seq![(Head::Tuple, parts)]);
        },
        Head::True | Head::False => {
            out.push((Head::True, 0));
            out.push((Head::False, 0));
            assert(out@ =~= seq![(Head::True, 0usize), (Head::False, 0usize)]);
        },
        Head::Nil | Head::Link => {
            out.push((Head::Nil, 0));
            out.push((Head::Link, 2));
            assert(out@ =~= seq![(Head::Nil, 0usize), (Head::Link, 2usize)]);
        },
        Head::Nat(_) | Head::Int(_) | Head::Char(_) => {
            let mut i: usize = 0;
            while i < rows.len()
                invariant
                    i <= rows.len(),
                    m == matrix_v(rows@),
                    forall|j: int| 0 <= j < rows@.len() ==> (#[trigger] rows@[j])@.len() > 0,
                    out@ == named_v(m, i as nat),
                decreases rows.len() - i,
            {
                proof {
                    assert(m[i as int] == row_v(rows@[i as int]@));
                }
                match head_at(&rows[i]) {
                    Some((h, _)) => match h {
                        Head::Nat(_) | Head::Int(_) | Head::Char(_) => {
                            out.push((h, 0));
                        },
                        _ => {},
                    },
                    None => {},
                }
                i += 1;
            }
            let mut n: usize = 0;
            let mut unnamed = Head::Other;
            let mut found = false;
            while !found && n <= rows.len() && n < 0x7fff_ffff
                invariant
                    m == matrix_v(rows@),
                    forall|j: int| 0 <= j < rows@.len() ==> (#[trigger] rows@[j])@.len() > 0,
                    !found ==> unnamed == Head::Other && unnamed_v(m, way, 0) == unnamed_v(
                        m,
                        way,
                        n as nat,
                    ),
                    found ==> unnamed == unnamed_v(m, way, 0),
                decreases (if found { 0int } else { 1int }), 0x7fff_ffff - n,
            {
                let candidate = match way {
                    Head::Nat(_) => Head::Nat(n as u64),
                    Head::Int(_) => Head::Int(n as i64),
                    _ => Head::Other,
                };
                assert(candidate == numbered(way, n as nat));
                if !column_has(rows, candidate) {
                    unnamed = candidate;
                    found = true;
                } else {
                    n += 1;
                }
            }
            out.push((unnamed, 0));
        },
        Head::Other => {
            out.push((Head::Other, 0));
            assert(out@ =~= seq![(Head::Other, 0usize)]);
        },
    }
    out
}

/// The example for a value built in the way `way` from `arity` parts, in front of the
/// examples for the other columns: `found` holds the examples for the parts and then
/// those for the other columns.
fn build(way: Head, arity: usize, found: Vec<Pat>) -> (r: Vec<Pat>)
    requires
        arity <= found@.len(),
    ensures
        r@.len() == found@.len() - arity + 1,
        r@[0] is Ctor,
        r@[0]->Ctor_0 == way,
        r@[0]->Ctor_1@ == found@.subrange(0, arity as int),
        forall|k: int| 1 <= k < r@.len() ==> r@[k] == found@[k + arity - 1],
        pats_view(r@) == built_v(way, arity as nat, pats_view(found@)),
{
    let mut parts = found;
    let mut rest = parts.split_off(arity);
    rest.insert(0, Pat::Ctor(way, parts));
    proof {
        let want = built_v(way, arity as nat, pats_view(found@));
        assert(pats_view(found@.subrange(0, arity as int)) =~= pats_view(found@).take(
            arity as int,
        ));
        assert forall|k: int| 0 <= k < rest@.len() implies pats_view(rest@)[k] == want[k] by {
            if k > 0 {
                assert(rest@[k] == found@[k + arity - 1]);
            }
        }
        assert(pats_view(rest@) =~= want);
    }
    rest
}

/// As many patterns for any value as `n`.
fn wilds(n: usize) -> (r: Vec<Pat>)
    ensures
        r@.len() == n,
        forall|k: int| 0 <= k < n ==> r@[k] == Pat::Wild,
        pats_view(r@) == wilds_v(n as nat),
{
    let mut out: Vec<Pat> = Vec::new();
    let mut k: usize = 0;
    while k < n
        invariant
            k <= n,
            out@.len() == k,
            forall|j: int| 0 <= j < k ==> out@[j] == Pat::Wild,
        decreases n - k,
    {
        out.push(Pat::Wild);
        k += 1;
    }
    assert(pats_view(out@) =~= wilds_v(n as nat));
    out
}

/// Looks for values that no row of the table matches; `cols` is the number of
/// columns. What is found is an example for each column, at odds with every row.
#[verifier::loop_isolation(false)]
pub fn uncovered<'a>(datas: &Datas, rows: &Vec<Vec<&'a Pat>>, cols: usize, wild: &'a Pat) -> (r:
    Option<Vec<Pat>>)
    requires
        datas.wf(),
        forall|i: int| 0 <= i < rows@.len() ==> (#[trigger] rows@[i])@.len() == cols,
        *wild == Pat::Wild,
    ensures
        r matches Some(w) ==> w@.len() == cols && forall|i: int|
            0 <= i < rows@.len() ==> row_clashes(deref((#[trigger] rows@[i])@), w@),
        found_v(r) == search(*datas, matrix_v(rows@), cols as nat),
    decreases table_size(rows@, 0), cols,
{
    let ghost m = matrix_v(rows@);
    proof {
        assert(table_ok(m, cols as nat)) by {
            assert forall|i: int| 0 <= i < m.len() implies (#[trigger] m[i]).len() == cols by {
                assert(rows@[i]@.len() == cols);
            }
        }
    }
    if cols == 0 {
        if rows.len() == 0 {
            let none: Vec<Pat> = Vec::new();
            assert(pats_view(none@) =~= Seq::<PatView>::empty());
            return Some(none);
        } else {
            return None;
        }
    }
    match first_way(rows) {
        None => {
            let (rest, image) = narrow(rows, None, 0, wild);
            match uncovered(datas, &rest, cols - 1, wild) {
                None => None,
                Some(found) => {
                    let ghost w = found@;
                    let witness = build(Head::Other, 0, found);
                    let mut out = witness;
                    out.set(0, Pat::Wild);
                    proof {
                        assert(pats_view(out@) =~= seq![PatView::Wild] + pats_view(w)) by {
                            assert forall|k: int| 0 <= k < out@.len() implies pats_view(out@)[k]
                                == (seq![PatView::Wild] + pats_view(w))[k] by {
                                if k > 0 {
                                    assert(out@[k] == w[k - 1]);
                                }
                            }
                        }
                        assert forall|i: int| 0 <= i < rows@.len() implies row_clashes(
                            deref((#[trigger] rows@[i])@),
                            out@,
                        ) by {
                            let j = image@[i];
                            let k = choose|k: int|
                                0 <= k < deref(rest@[j]@).len() && k < w.len() && clashes(
                                    #[trigger] deref(rest@[j]@)[k],
                                    w[k],
                                );
                            assert(rest@[j]@[k] == rows@[i]@[k + 1]);
                            assert(clashes(deref(rows@[i]@)[k + 1], out@[k + 1]));
                        }
                    }
                    Some(out)
                },
            }
        },
        Some((way, parts)) => {
            let tries = ways(datas, rows, way, parts);
            let mut t: usize = 0;
            while t < tries.len()
                invariant
                    t <= tries.len(),
                    try_ways(*datas, m, cols as nat, tries@, 0) == try_ways(
                        *datas,
                        m,
                        cols as nat,
                        tries@,
                        t as nat,
                    ),
                decreases tries.len() - t,
            {
                let (h, arity) = tries[t];
                if column_has(rows, h) {
                    if arity <= usize::MAX - cols {
                        let (sub, image) = narrow(rows, Some(h), arity, wild);
                        match uncovered(datas, &sub, arity + cols - 1, wild) {
                            None => {},
                            Some(found) => {
                                let ghost w = found@;
                                let out = build(h, arity, found);
                                proof {
                                    assert forall|i: int| 0 <= i < rows@.len() implies row_clashes(
                                        deref((#[trigger] rows@[i])@),
                                        out@,
                                    ) by {
                                        let row = rows@[i]@;
                                        let j = image@[i];
                                        if j >= 0 {
                                            let k = choose|k: int|
                                                0 <= k < deref(sub@[j]@).len() && k < w.len()
                                                    && clashes(#[trigger] deref(sub@[j]@)[k], w[k]);
                                            if k < arity {
                                                assert(*sub@[j]@[k] == part(*row[0], k));
                                                let ps = (*row[0])->Ctor_1;
                                                assert(out@[0]->Ctor_1@[k] == w[k]);
                                                assert(clashes(ps@[k], out@[0]->Ctor_1@[k]));
                                                assert(clashes(deref(row)[0], out@[0]));
                                            } else {
                                                assert(sub@[j]@[k] == row[k - arity + 1]);
                                                assert(clashes(
                                                    deref(row)[k - arity + 1],
                                                    out@[k - arity + 1],
                                                ));
                                            }
                                        } else {
                                            assert(clashes(deref(row)[0], out@[0]));
                                        }
                                    }
                                }
                                return Some(out);
                            },
                        }
                    }
                } else {
                    let (rest, image) = narrow(rows, None, 0, wild);
                    match uncovered(datas, &rest, cols - 1, wild) {
                        None => {},
                        Some(found) => {
                            let ghost w = found@;
                            let mut whole = wilds(arity);
                            let mut tail = found;
                            whole.append(&mut tail);
                            proof {
                                assert(pats_view(whole@) =~= wilds_v(arity as nat) + pats_view(w));
                            }
                            let out = build(h, arity, whole);
                            proof {
                                assert forall|i: int| 0 <= i < rows@.len() implies row_clashes(
                                    deref((#[trigger] rows@[i])@),
                                    out@,
                                ) by {
                                    let row = rows@[i]@;
                                    let j = image@[i];
                                    if j >= 0 {
                                        let k = choose|k: int|
                                            0 <= k < deref(rest@[j]@).len() && k < w.len()
                                                && clashes(#[trigger] deref(rest@[j]@)[k], w[k]);
                                        assert(rest@[j]@[k] == row[k + 1]);
                                        assert(clashes(deref(row)[k + 1], out@[k + 1]));
                                    } else {
                                        assert(!starts_with(row, h));
                                        assert(clashes(deref(row)[0], out@[0]));
                                    }
                                }
                            }
                            return Some(out);
                        },
                    }
                }
                t += 1;
            }
            None
        },
    }
}

/// A search for a value that no row of `rows` matches, where each row holds a
/// pattern for each of `cols` values. A row of another length takes no part. What is
/// found is an example for each value, at odds with every row.
pub fn missing_case(datas: &Datas, rows: &Vec<Vec<Pat>>, cols: usize) -> (r: Option<Vec<Pat>>)
    requires
        datas.wf(),
    ensures
        r matches Some(w) ==> w@.len() == cols && forall|i: int|
            0 <= i < rows@.len() && (#[trigger] rows@[i])@.len() == cols ==> row_clashes(
                rows@[i]@,
                w@,
            ),
        found_v(r) == search(*datas, of_width(table_view(rows@), cols as nat, rows@.len()), cols as nat),
{
    let wild = Pat::Wild;
    let mut table: Vec<Vec<&Pat>> = Vec::new();
    let mut i: usize = 0;
    while i < rows.len()
        invariant
            i <= rows.len(),
            matrix_v(table@) == of_width(table_view(rows@), cols as nat, i as nat),
            forall|j: int| 0 <= j < table@.len() ==> (#[trigger] table@[j])@.len() == cols,
            forall|j: int|
                0 <= j < i && (#[trigger] rows@[j])@.len() == cols ==> exists|t: int|
                    0 <= t < table@.len() && deref(table@[t]@) == rows@[j]@,
        decreases rows.len() - i,
    {
        if rows[i].len() == cols {
            let mut row: Vec<&Pat> = Vec::new();
            let mut k: usize = 0;
            while k < cols
                invariant
                    k <= cols,
                    i < rows.len(),
                    rows@[i as int]@.len() == cols,
                    row@.len() == k,
                    forall|x: int| 0 <= x < k ==> *(#[trigger] row@[x]) == rows@[i as int]@[x],
                decreases cols - k,
            {
                row.push(&rows[i][k]);
                k += 1;
            }
            let ghost before = table@;
            assert(deref(row@) =~= rows@[i as int]@);
            assert(row_v(row@) =~= pats_view(rows@[i as int]@));
            table.push(row);
            proof {
                assert(matrix_v(table@) =~= matrix_v(before).push(row_v(row@)));
                assert(table_view(rows@)[i as int] == pats_view(rows@[i as int]@));
                assert forall|j: int|
                    0 <= j < i + 1 && (#[trigger] rows@[j])@.len() == cols implies exists|t: int|
                    0 <= t < table@.len() && deref(table@[t]@) == rows@[j]@ by {
                    if j < i {
                        let t = choose|t: int|
                            0 <= t < before.len() && deref(before[t]@) == rows@[j]@;
                        assert(table@[t] == before[t]);
                    } else {
                        assert(deref(table@[before.len() as int]@) == rows@[j]@);
                    }
                }
            }
        } else {
            proof {
                assert(table_view(rows@)[i as int].len() == rows@[i as int]@.len());
            }
        }
        i += 1;
    }
    match uncovered(datas, &table, cols, &wild) {
        None => None,
        Some(w) => {
            proof {
                assert forall|j: int|
                    0 <= j < rows@.len() && (#[trigger] rows@[j])@.len() == cols implies row_clashes(
                    rows@[j]@,
                    w@,
                ) by {
                    let t = choose|t: int|
                        0 <= t < table@.len() && deref(table@[t]@) == rows@[j]@;
                    assert(row_clashes(deref(table@[t]@), w@));
                }
            }
            Some(w)
        },
    }
}

/// The patterns of `pats`, each as the table takes it.
fn lower_all(datas: &Datas, pats: &Vec<Pattern>) -> (r: Vec<Pat>)
    requires
        datas.wf(),
    ensures
        pats_view(r@) == lowered_all(*datas, pats@),
    decreases pats,
{
    let mut out: Vec<Pat> = Vec::new();
    let mut k: usize = 0;
    while k < pats.len()
        invariant
            k <= pats.len(),
            datas.wf(),
            out@.len() == k,
            forall|j: int| 0 <= j < k ==> (#[trigger] out@[j])@ == lowered(*datas, pats@[j]),
        decreases pats.len() - k,
    {
        out.push(lower(datas, &pats[k]));
        k += 1;
    }
    assert(pats_view(out@) =~= lowered_all(*datas, pats@));
    out
}

/// The list pattern of the items `items` followed by the list `rest`.
fn link_all(items: Vec<Pat>, rest: Pat) -> (r: Pat)
    ensures
        r@ == linked(pats_view(items@), items@.len(), rest@),
{
    let ghost all = pats_view(items@);
    let ghost wanted = linked(all, items@.len(), rest@);
    let mut items = items;
    let mut list = rest;
    while items.len() > 0
        invariant
            items@.len() <= all.len(),
            forall|j: int| 0 <= j < items@.len() ==> (#[trigger] items@[j])@ == all[j],
            linked(all, items@.len(), list@) == wanted,
        decreases items.len(),
    {
        let ghost last = items@[items@.len() - 1];
        let ghost before = list@;
        match items.pop() {
            Some(item) => {
                let mut parts: Vec<Pat> = Vec::new();
                parts.push(item);
                parts.push(list);
                proof {
                    assert(pats_view(parts@) =~= seq![last@, before]);
                }
                list = Pat::Ctor(Head::Link, parts);
            },
            None => {},
        }
    }
    list
}

/// The pattern `pat` as the table takes it: a literal and a constructor are ways of
/// building a value; a list is the empty list, or a first item and the list of the
/// others. A constructor that is not declared is taken as a pattern for any value.
pub fn lower(datas: &Datas, pat: &Pattern) -> (r: Pat)
    requires
        datas.wf(),
    ensures
        r@ == lowered(*datas, *pat),
    decreases pat,
{
    match &pat.kind {
        PatKind::Wildcard => Pat::Wild,
        PatKind::Literal(l) => {
            let head = match l {
                Literal::Bool(b) => if *b {
                    Head::True
                } else {
                    Head::False
                },
                Literal::Nat(n) => Head::Nat(*n),
                Literal::Int(n) => Head::Int(*n),
                Literal::Char(c) => Head::Char(*c),
            };
            let parts: Vec<Pat> = Vec::new();
            assert(pats_view(parts@) =~= Seq::<PatView>::empty());
            Pat::Ctor(head, parts)
        },
        PatKind::Tuple(items) => Pat::Ctor(Head::Tuple, lower_all(datas, items)),
        PatKind::ListExact(items) => {
            let parts: Vec<Pat> = Vec::new();
            assert(pats_view(parts@) =~= Seq::<PatView>::empty());
            let inner = lower_all(datas, items);
            assert(inner@.len() == pats_view(inner@).len());
            link_all(inner, Pat::Ctor(Head::Nil, parts))
        },
        PatKind::ListFront(items, tail) => {
            let rest = match tail {
                Some(t) => lower(datas, &**t),
                None => Pat::Wild,
            };
            let inner = lower_all(datas, items);
            assert(inner@.len() == pats_view(inner@).len());
            link_all(inner, rest)
        },
        PatKind::Cons(name, fields) => match datas.lookup_cons(name.inner) {
            Some(c) => Pat::Ctor(Head::Variant(c), lower_all(datas, fields)),
            None => Pat::Wild,
        },
    }
}

/// The name of the constructor at the position `c`.
pub open spec fn cons_name(datas: Datas, c: usize) -> Ident {
    if c < datas.conses().len() {
        datas.conses()[c as int].name
    } else {
        Ident(0)
    }
}

/// Whether the list example `p` ends: it is the empty list, or a first item and a
/// list that ends.
pub open spec fn list_closed(p: PatView) -> bool
    decreases p,
{
    match p {
        PatView::Ctor(Head::Link, parts) => parts.len() == 2 && list_closed(parts[1]),
        PatView::Ctor(Head::Nil, _) => true,
        _ => false,
    }
}

/// The examples for the items that the list example `p` starts with.
pub open spec fn list_items_for(datas: Datas, p: PatView) -> Seq<ExampleView>
    decreases p, 0nat,
{
    match p {
        PatView::Ctor(Head::Link, parts) => if parts.len() == 2 {
            seq![example_for(datas, parts[0])] + list_items_for(datas, parts[1])
        } else {
            Seq::empty()
        },
        _ => Seq::empty(),
    }
}

/// The example `p` as it is reported: a pattern for any value, and a value unlike
/// any that is named, are reported as any value; a list by its items, followed by
/// more where the list does not end.
pub open spec fn example_for(datas: Datas, p: PatView) -> ExampleView
    decreases p, 1nat,
{
    match p {
        PatView::Wild => ExampleView::Wildcard,
        PatView::Ctor(head, parts) => match head {
            Head::Variant(c) => ExampleView::Cons(cons_name(datas, c), examples_for(datas, parts)),
            Head::Tuple => ExampleView::Tuple(examples_for(datas, parts)),
            Head::True => ExampleView::Bool(true),
            Head::False => ExampleView::Bool(false),
            Head::Nat(n) => ExampleView::Nat(n),
            Head::Int(n) => ExampleView::Int(n),
            Head::Char(c) => ExampleView::Char(c),
            Head::Nil | Head::Link => if list_closed(p) {
                ExampleView::List(list_items_for(datas, p))
            } else {
                ExampleView::ListFront(list_items_for(datas, p))
            },
            Head::Other => ExampleView::Wildcard,
        },
    }
}

/// The examples `ps` as they are reported.
pub open spec fn examples_for(datas: Datas, ps: Seq<PatView>) -> Seq<ExampleView>
    decreases ps, 2nat,
{
    Seq::new(
        ps.len(),
        |i: int|
            if 0 <= i < ps.len() {
                example_for(datas, ps[i])
            } else {
                arbitrary()
            },
    )
}

/// The examples for `ps`, as they are reported.
fn examples_of(datas: &Datas, ps: &Vec<Pat>) -> (r: Vec<ExamplePat>)
    ensures
        examples_view(r@) == examples_for(*datas, pats_view(ps@)),
    decreases ps, 0nat,
{
    let mut out: Vec<ExamplePat> = Vec::new();
    let mut k: usize = 0;
    while k < ps.len()
        invariant
            k <= ps.len(),
            out@.len() == k,
            forall|j: int| 0 <= j < k ==> (#[trigger] out@[j])@ == example_for(*datas, ps@[j]@),
        decreases ps.len() - k,
    {
        out.push(example_of(datas, &ps[k]));
        k += 1;
    }
    assert(examples_view(out@) =~= examples_for(*datas, pats_view(ps@)));
    out
}

/// The items that the list example `p` starts with, and whether the list then ends.
fn list_items(datas: &Datas, p: &Pat) -> (r: (Vec<ExamplePat>, bool))
    ensures
        examples_view(r.0@) == list_items_for(*datas, p@),
        r.1 == list_closed(p@),
    decreases p, 0nat,
{
    match p {
        Pat::Ctor(Head::Link, parts) => {
            if parts.len() == 2 {
                let (mut items, closed) = list_items(datas, &parts[1]);
                let ghost rest = items@;
                let first = example_of(datas, &parts[0]);
                let ghost shown = first@;
                items.insert(0, first);
                proof {
                    assert(pats_view(parts@)[0] == parts@[0]@);
                    assert(pats_view(parts@)[1] == parts@[1]@);
                    assert(examples_view(items@) =~= seq![shown] + examples_view(rest));
                }
                (items, closed)
            } else {
                let none: Vec<ExamplePat> = Vec::new();
                assert(examples_view(none@) =~= Seq::<ExampleView>::empty());
                assert(pats_view(parts@).len() == parts@.len());
                (none, false)
            }
        },
        Pat::Ctor(Head::Nil, _) => {
            let none: Vec<ExamplePat> = Vec::new();
            assert(examples_view(none@) =~= Seq::<ExampleView>::empty());
            (none, true)
        },
        _ => {
            let none: Vec<ExamplePat> = Vec::new();
            assert(examples_view(none@) =~= Seq::<ExampleView>::empty());
            (none, false)
        },
    }
}

/// The example `p` as it is reported.
pub fn example_of(datas: &Datas, p: &Pat) -> (r: ExamplePat)
    ensures
        r@ == example_for(*datas, p@),
    decreases p, 1nat,
{
    match p {
        Pat::Wild => ExamplePat::Wildcard,
        Pat::Ctor(head, parts) => match head {
            Head::Variant(c) => {
                let name = if *c < datas.cons_count() {
                    datas.get_cons(*c).name
                } else {
                    Ident(0)
                };
                ExamplePat::Cons(name, examples_of(datas, parts))
            },
            Head::Tuple => ExamplePat::Tuple(examples_of(datas, parts)),
            Head::True => ExamplePat::Bool(true),
            Head::False => ExamplePat::Bool(false),
            Head::Nat(n) => ExamplePat::Nat(*n),
            Head::Int(n) => ExamplePat::Int(*n),
            Head::Char(c) => ExamplePat::Char(*c),
            Head::Nil | Head::Link => {
                let (items, closed) = list_items(datas, p);
                if closed {
                    ExamplePat::List(items)
                } else {
                    ExamplePat::ListFront(items)
                }
            },
            Head::Other => ExamplePat::Wildcard,
        },
    }
}

} // verus!
