//! Filters: boolean expressions over the columns of a family, and what it
//! means for a row to match one.

use crate::store::row::{DatumView, Row, RowView, Datum, cells, cell};
use crate::text::chars_of;
use vstd::prelude::*;

verus! {

/// A column of a family.
#[derive(Clone, Copy, PartialEq, Eq, Debug, Hash, Structural)]
pub enum Column {
    Id,
    Value,
    Unscoped,
    /// The id of the parent at this place.
    Parent(usize),
    /// The optional attribute at this place.
    Attr(usize),
}

/// An operator of the filter language.
#[derive(Clone, Copy, PartialEq, Eq, Debug, Hash, Structural)]
pub enum Op {
    Eq,
    Ne,
    Like,
}

/// A literal of the filter language.
#[derive(Clone, PartialEq, Eq, Debug)]
pub enum Literal {
    Int(i64),
    Text(String),
}

/// A filter.
#[derive(PartialEq, Eq, Debug)]
pub enum Filter {
    Cmp(Column, Op, Literal),
    And(Box<Filter>, Box<Filter>),
    Or(Box<Filter>, Box<Filter>),
    Not(Box<Filter>),
}

/// The mathematical value of a [`Literal`].
pub enum LiteralView {
    Int(i64),
    Text(Seq<char>),
}

/// The mathematical value of a [`Filter`].
pub enum FilterView {
    Cmp(Column, Op, LiteralView),
    And(Box<FilterView>, Box<FilterView>),
    Or(Box<FilterView>, Box<FilterView>),
    Not(Box<FilterView>),
}

impl View for Literal {
    type V = LiteralView;

    open spec fn view(&self) -> LiteralView {
        match self {
            Literal::Int(n) => LiteralView::Int(*n),
            Literal::Text(s) => LiteralView::Text(s@),
        }
    }
}

/// The mathematical value of a filter.
pub open spec fn filter_view(f: Filter) -> FilterView
    decreases f,
{
    match f {
        Filter::Cmp(c, op, lit) => FilterView::Cmp(c, op, lit@),
        Filter::And(a, b) => FilterView::And(
            Box::new(filter_view(*a)),
            Box::new(filter_view(*b)),
        ),
        Filter::Or(a, b) => FilterView::Or(Box::new(filter_view(*a)), Box::new(filter_view(*b))),
        Filter::Not(a) => FilterView::Not(Box::new(filter_view(*a))),
    }
}

impl View for Filter {
    type V = FilterView;

    open spec fn view(&self) -> FilterView {
        filter_view(*self)
    }
}

/// Whether `text` from place `i` on has the form of `pattern` from place
/// `j` on: `%` stands for any characters, also none, `_` for any one
/// character, every other character for itself.
pub open spec fn like_from(text: Seq<char>, pattern: Seq<char>, i: int, j: int) -> bool
    decreases pattern.len() - j, text.len() - i,
{
    if j >= pattern.len() {
        i >= text.len()
    } else if pattern[j] == '%' {
        like_from(text, pattern, i, j + 1) || (i < text.len() && like_from(
            text,
            pattern,
            i + 1,
            j,
        ))
    } else {
        i < text.len() && (pattern[j] == '_' || pattern[j] == text[i]) && like_from(
            text,
            pattern,
            i + 1,
            j + 1,
        )
    }
}

/// Whether `text` has the form of `pattern`.
pub open spec fn like(text: Seq<char>, pattern: Seq<char>) -> bool {
    like_from(text, pattern, 0, 0)
}

/// What a row holds in a column; `None` where the attribute is unknown or
/// the row has no such column.
pub open spec fn field(row: RowView, column: Column) -> Option<DatumView> {
    match column {
        Column::Id => Some(DatumView::Int(row.id as i64)),
        Column::Value => Some(DatumView::Text(row.value)),
        Column::Unscoped => Some(DatumView::Bool(row.unscoped)),
        Column::Parent(p) => if p < row.parents.len() {
            Some(DatumView::Int(row.parents[p as int] as i64))
        } else {
            None
        },
        Column::Attr(a) => if a < row.attrs.len() {
            row.attrs[a as int]
        } else {
            None
        },
    }
}

/// Whether a value stands in the relation `op` to a literal. An integer is
/// compared with an integer literal, a boolean with an integer literal as 0
/// or 1, a text with a text literal; nothing else compares.
pub open spec fn compares(d: DatumView, op: Op, lit: LiteralView) -> bool {
    match (d, lit) {
        (DatumView::Int(n), LiteralView::Int(m)) => match op {
            Op::Eq => n == m,
            Op::Ne => n != m,
            Op::Like => false,
        },
        (DatumView::Bool(b), LiteralView::Int(m)) => match op {
            Op::Eq => (if b { 1i64 } else { 0i64 }) == m,
            Op::Ne => (if b { 1i64 } else { 0i64 }) != m,
            Op::Like => false,
        },
        (DatumView::Text(s), LiteralView::Text(t)) => match op {
            Op::Eq => s == t,
            Op::Ne => s != t,
            Op::Like => like(s, t),
        },
        _ => false,
    }
}

/// Whether a row matches a filter. A comparison with an attribute that is
/// unknown does not hold.
pub open spec fn holds(f: FilterView, row: RowView) -> bool
    decreases f,
{
    match f {
        FilterView::Cmp(c, op, lit) => match field(row, c) {
            Some(d) => compares(d, op, lit),
            None => false,
        },
        FilterView::And(a, b) => holds(*a, row) && holds(*b, row),
        FilterView::Or(a, b) => holds(*a, row) || holds(*b, row),
        FilterView::Not(a) => !holds(*a, row),
    }
}

/// Whether `text` has the form of `pattern`.
pub fn like_chars(text: &Vec<char>, pattern: &Vec<char>) -> (r: bool)
    ensures
        r == like(text@, pattern@),
{
    let n = text.len();
    let m = pattern.len();
    // `line[i]` and `tail` say whether the text from `i`, and from its end,
    // has the form of the pattern from `j`.
    let mut line: Vec<bool> = Vec::new();
    let mut i: usize = 0;
    while i < n
        invariant
            i <= n,
            n == text.len(),
            m == pattern.len(),
            line.len() == i,
            forall|k: int| 0 <= k < i ==> line@[k] == like_from(text@, pattern@, k, m as int),
        decreases n - i,
    {
        line.push(false);
        i += 1;
    }
    let mut tail: bool = true;
    let mut j: usize = m;
    while j > 0
        invariant
            j <= m,
            n == text.len(),
            m == pattern.len(),
            line.len() == n,
            tail == like_from(text@, pattern@, n as int, j as int),
            forall|k: int| 0 <= k < n ==> line@[k] == like_from(text@, pattern@, k, j as int),
        decreases j,
    {
        j -= 1;
        let p = pattern[j];
        if p == '%' {
            let mut i: usize = n;
            let mut behind: bool = tail;
            while i > 0
                invariant
                    i <= n,
                    j < m,
                    n == text.len(),
                    m == pattern.len(),
                    line.len() == n,
                    pattern@[j as int] == '%',
                    behind == like_from(text@, pattern@, i as int, j as int),
                    forall|k: int|
                        0 <= k < i ==> line@[k] == like_from(text@, pattern@, k, j + 1),
                    forall|k: int|
                        i <= k < n ==> line@[k] == like_from(text@, pattern@, k, j as int),
                decreases i,
            {
                i -= 1;
                let now = line[i] || behind;
                line.set(i, now);
                behind = now;
            }
        } else {
            let mut i: usize = 0;
            while i < n
                invariant
                    i <= n,
                    j < m,
                    n == text.len(),
                    m == pattern.len(),
                    line.len() == n,
                    pattern@[j as int] == p,
                    p != '%',
                    tail == like_from(text@, pattern@, n as int, j + 1),
                    forall|k: int|
                        0 <= k < i ==> line@[k] == like_from(text@, pattern@, k, j as int),
                    forall|k: int|
                        i <= k < n ==> line@[k] == like_from(text@, pattern@, k, j + 1),
                decreases n - i,
            {
                let next = if i + 1 < n {
                    line[i + 1]
                } else {
                    tail
                };
                let now = (p == '_' || p == text[i]) && next;
                line.set(i, now);
                i += 1;
            }
            tail = false;
        }
    }
    if n == 0 {
        tail
    } else {
        line[0]
    }
}

impl Literal {
    /// A copy of the literal.
    pub fn duplicate(&self) -> (r: Literal)
        ensures
            r@ == self@,
    {
        match self {
            Literal::Int(n) => Literal::Int(*n),
            Literal::Text(s) => Literal::Text(s.clone()),
        }
    }
}

/// Whether a value stands in the relation `op` to a literal.
pub fn compare(d: &Datum, op: Op, lit: &Literal) -> (r: bool)
    ensures
        r == compares(d@, op, lit@),
{
    match (d, lit) {
        (Datum::Int(n), Literal::Int(m)) => match op {
            Op::Eq => *n == *m,
            Op::Ne => *n != *m,
            Op::Like => false,
        },
        (Datum::Bool(b), Literal::Int(m)) => {
            let n: i64 = if *b {
                1
            } else {
                0
            };
            match op {
                Op::Eq => n == *m,
                Op::Ne => n != *m,
                Op::Like => false,
            }
        },
        (Datum::Text(s), Literal::Text(t)) => match op {
            Op::Eq => *s == *t,
            Op::Ne => *s != *t,
            Op::Like => like_chars(&chars_of(s.as_str()), &chars_of(t.as_str())),
        },
        _ => false,
    }
}

/// Whether the row holds, in the column, a value that stands in the
/// relation `op` to the literal.
pub fn check(row: &Row, column: Column, op: Op, lit: &Literal) -> (r: bool)
    ensures
        r == (match field(row@, column) {
            Some(d) => compares(d, op, lit@),
            None => false,
        }),
{
    match column {
        Column::Id => compare(&Datum::Int(row.id as i64), op, lit),
        Column::Value => match lit {
            Literal::Text(t) => match op {
                Op::Eq => row.value == *t,
                Op::Ne => row.value != *t,
                Op::Like => like_chars(&chars_of(row.value.as_str()), &chars_of(t.as_str())),
            },
            Literal::Int(_) => false,
        },
        Column::Unscoped => compare(&Datum::Bool(row.unscoped), op, lit),
        Column::Parent(p) => if p < row.parents.len() {
            compare(&Datum::Int(row.parents[p] as i64), op, lit)
        } else {
            false
        },
        Column::Attr(a) => if a < row.attrs.len() {
            assert(cells(row.attrs@)[a as int] == cell(row.attrs@[a as int]));
            match &row.attrs[a] {
                Some(d) => compare(d, op, lit),
                None => false,
            }
        } else {
            false
        },
    }
}

impl Filter {
    /// The filter that holds of the rows that are in scope.
    pub fn in_scope() -> (r: Filter)
        ensures
            r@ == FilterView::Cmp(Column::Unscoped, Op::Eq, LiteralView::Int(0)),
            forall|row: RowView| #[trigger] holds(r@, row) == !row.unscoped,
    {
        Filter::Cmp(Column::Unscoped, Op::Eq, Literal::Int(0))
    }

    /// The filter that holds of the row with the id `id`.
    pub fn by_id(id: i32) -> (r: Filter)
        ensures
            r@ == FilterView::Cmp(Column::Id, Op::Eq, LiteralView::Int(id as i64)),
            forall|row: RowView| #[trigger] holds(r@, row) == (row.id == id),
    {
        Filter::Cmp(Column::Id, Op::Eq, Literal::Int(id as i64))
    }

    /// Whether the row matches the filter.
    pub fn matches(&self, row: &Row) -> (r: bool)
        ensures
            r == holds(self@, row@),
        decreases self,
    {
        match self {
            Filter::Cmp(c, op, lit) => check(row, *c, *op, lit),
            Filter::And(a, b) => a.matches(row) && b.matches(row),
            Filter::Or(a, b) => a.matches(row) || b.matches(row),
            Filter::Not(a) => !a.matches(row),
        }
    }
}

} // verus!
