//! The filter language: texts such as `value like '%.example.com' and not
//! unscoped = 1`, read for a family into a [`Filter`].
//!
//! A filter is a disjunction of conjunctions of factors; a factor is a
//! comparison, a parenthesised filter, or `not` before a factor. A
//! comparison names a column of the family, an operator (`=`, `!=`, `like`)
//! and a literal: an integer, or a text between single quotes.

use crate::error::Error;
use crate::find::{first_where, lemma_first_found, lemma_first_missing};
use crate::store::filter::{Column, Filter, FilterView, Literal, LiteralView, Op};
use crate::store::schema::{Family, Kind};
use crate::text::{chars_of, same_text, string_of};
use vstd::prelude::*;

verus! {

/// A token of the filter language.
#[derive(Clone, PartialEq, Eq, Debug)]
pub enum Token {
    Word(String),
    Int(i64),
    Text(String),
    Eq,
    Ne,
    Open,
    Close,
}

/// The mathematical value of a [`Token`].
pub enum TokenView {
    Word(Seq<char>),
    Int(i64),
    Text(Seq<char>),
    Eq,
    Ne,
    Open,
    Close,
}

impl View for Token {
    type V = TokenView;

    open spec fn view(&self) -> TokenView {
        match self {
            Token::Word(s) => TokenView::Word(s@),
            Token::Int(n) => TokenView::Int(*n),
            Token::Text(s) => TokenView::Text(s@),
            Token::Eq => TokenView::Eq,
            Token::Ne => TokenView::Ne,
            Token::Open => TokenView::Open,
            Token::Close => TokenView::Close,
        }
    }
}

/// The views of a list of tokens.
pub open spec fn tokens(v: Seq<Token>) -> Seq<TokenView> {
    v.map_values(|t: Token| t@)
}

/// The classes of characters that the tokens are made of.
#[derive(Clone, Copy, PartialEq, Eq, Debug, Structural)]
pub enum Class {
    /// White space between tokens.
    Space,
    /// A decimal digit.
    Digit,
    /// A letter, a digit or an underscore.
    Word,
    /// Anything but a single quote.
    Quoted,
}

/// A decimal digit.
pub open spec fn is_digit(c: char) -> bool {
    '0' <= c && c <= '9'
}

/// A letter or an underscore.
pub open spec fn is_word_start(c: char) -> bool {
    ('a' <= c && c <= 'z') || ('A' <= c && c <= 'Z') || c == '_'
}

/// Whether a character belongs to a class.
pub open spec fn in_class(class: Class, c: char) -> bool {
    match class {
        Class::Space => c == ' ' || c == '\t' || c == '\n' || c == '\r',
        Class::Digit => is_digit(c),
        Class::Word => is_word_start(c) || is_digit(c),
        Class::Quoted => c != '\'',
    }
}

/// The end of the run of characters of a class that begins at `from`.
pub open spec fn run_end(s: Seq<char>, from: int, class: Class) -> int
    decreases s.len() - from,
{
    if 0 <= from < s.len() && in_class(class, s[from]) {
        run_end(s, from + 1, class)
    } else {
        from
    }
}

/// The number that the digits `s[lo..hi]` write.
pub open spec fn digits_value(s: Seq<char>, lo: int, hi: int) -> int
    decreases hi - lo,
{
    if hi <= lo {
        0
    } else {
        digits_value(s, lo, hi - 1) * 10 + ((s[hi - 1] as u32) as int - 48)
    }
}

/// The token that begins at `at`, and the place behind it; `None` where no
/// token begins there: at a `!` without `=`, a quote that is not closed, a
/// number outside the 64-bit integers, a `-` without digits, or any other
/// character.
pub open spec fn token_at(s: Seq<char>, at: int) -> Option<(TokenView, int)> {
    let c = s[at];
    if c == '(' {
        Some((TokenView::Open, at + 1))
    } else if c == ')' {
        Some((TokenView::Close, at + 1))
    } else if c == '=' {
        Some((TokenView::Eq, at + 1))
    } else if c == '!' {
        if at + 1 < s.len() && s[at + 1] == '=' {
            Some((TokenView::Ne, at + 2))
        } else {
            None
        }
    } else if c == '\'' {
        let close = run_end(s, at + 1, Class::Quoted);
        if close < s.len() {
            Some((TokenView::Text(s.subrange(at + 1, close)), close + 1))
        } else {
            None
        }
    } else if is_digit(c) {
        let end = run_end(s, at, Class::Digit);
        let v = digits_value(s, at, end);
        if v <= i64::MAX {
            Some((TokenView::Int(v as i64), end))
        } else {
            None
        }
    } else if c == '-' {
        let end = run_end(s, at + 1, Class::Digit);
        let v = digits_value(s, at + 1, end);
        if at + 1 < end && v <= i64::MAX + 1 {
            Some((TokenView::Int((-v) as i64), end))
        } else {
            None
        }
    } else if is_word_start(c) {
        let end = run_end(s, at, Class::Word);
        Some((TokenView::Word(s.subrange(at, end)), end))
    } else {
        None
    }
}

/// The tokens of `s` from `from` on; `None` where some part of it is no token.
pub open spec fn lex(s: Seq<char>, from: int) -> Option<Seq<TokenView>>
    decreases s.len() - from,
{
    let at = run_end(s, from, Class::Space);
    if at < from || at >= s.len() {
        Some(Seq::empty())
    } else {
        match token_at(s, at) {
            Some((t, next)) => if at < next <= s.len() {
                match lex(s, next) {
                    Some(rest) => Some(seq![t] + rest),
                    None => None,
                }
            } else {
                None
            },
            None => None,
        }
    }
}

/// The place of a name in a list of names.
pub open spec fn name_index(names: Seq<Seq<char>>, name: Seq<char>) -> Option<int> {
    first_where(names, |n: Seq<char>| n == name)
}

/// The column of the family `f` that is called `name`, with its kind: `id`,
/// `value`, `unscoped`, the id of a parent, or an attribute.
pub open spec fn column_of(f: Family, name: Seq<char>) -> Option<(Column, Kind)> {
    if name == "id"@ {
        Some((Column::Id, Kind::Integer))
    } else if name == "value"@ {
        Some((Column::Value, Kind::Text))
    } else if name == "unscoped"@ {
        Some((Column::Unscoped, Kind::Boolean))
    } else {
        match name_index(f.parent_names(), name) {
            Some(p) => Some((Column::Parent(p as usize), Kind::Integer)),
            None => match name_index(f.attribute_names(), name) {
                Some(a) => Some((Column::Attr(a as usize), f.kinds()[a])),
                None => None,
            },
        }
    }
}

/// The kind of a column of the family `f`, if the family has the column.
pub open spec fn kind_of(f: Family, c: Column) -> Option<Kind> {
    match c {
        Column::Id => Some(Kind::Integer),
        Column::Value => Some(Kind::Text),
        Column::Unscoped => Some(Kind::Boolean),
        Column::Parent(p) => if p < f.parent_families().len() {
            Some(Kind::Integer)
        } else {
            None
        },
        Column::Attr(a) => if a < f.kinds().len() {
            Some(f.kinds()[a as int])
        } else {
            None
        },
    }
}

/// Whether a column of the kind admits the comparison: an integer or a
/// boolean is compared for equality with an integer literal, a text in any
/// way with a text literal; a real number is not compared at all.
pub open spec fn admits(kind: Kind, op: Op, lit: LiteralView) -> bool {
    match (kind, lit) {
        (Kind::Integer, LiteralView::Int(_)) => op != Op::Like,
        (Kind::Boolean, LiteralView::Int(_)) => op != Op::Like,
        (Kind::Text, LiteralView::Text(_)) => true,
        _ => false,
    }
}

/// The operator that a token writes.
pub open spec fn op_of(t: TokenView) -> Option<Op> {
    match t {
        TokenView::Eq => Some(Op::Eq),
        TokenView::Ne => Some(Op::Ne),
        TokenView::Word(w) => if w == "like"@ {
            Some(Op::Like)
        } else {
            None
        },
        _ => None,
    }
}

/// The literal that a token writes.
pub open spec fn literal_of(t: TokenView) -> Option<LiteralView> {
    match t {
        TokenView::Int(n) => Some(LiteralView::Int(n)),
        TokenView::Text(s) => Some(LiteralView::Text(s)),
        _ => None,
    }
}

/// The comparison that begins at `at`: a column of the family, an
/// operator, and a literal that the column admits.
pub open spec fn comparison_at(f: Family, ts: Seq<TokenView>, at: int) -> Option<
    (FilterView, int),
> {
    if 0 <= at && at + 2 < ts.len() {
        match (ts[at], op_of(ts[at + 1]), literal_of(ts[at + 2])) {
            (TokenView::Word(name), Some(op), Some(lit)) => match column_of(f, name) {
                Some((c, kind)) => if admits(kind, op, lit) {
                    Some((FilterView::Cmp(c, op, lit), at + 3))
                } else {
                    None
                },
                None => None,
            },
            _ => None,
        }
    } else {
        None
    }
}

/// Whether a token is the word `word`.
pub open spec fn is_word(t: TokenView, word: Seq<char>) -> bool {
    t == TokenView::Word(word)
}

/// The filter that begins at `at`, and the place behind it. At level 2 it
/// is a disjunction, at level 1 a conjunction, at level 0 a factor.
pub open spec fn parse_at(f: Family, ts: Seq<TokenView>, at: int, level: int) -> Option<
    (FilterView, int),
>
    decreases ts.len() - at, level,
{
    if at < 0 || at >= ts.len() {
        None
    } else if level >= 1 {
        let word = if level >= 2 {
            "or"@
        } else {
            "and"@
        };
        match parse_at(f, ts, at, if level >= 2 { 1 } else { 0 }) {
            Some((left, next)) => if at < next < ts.len() && is_word(ts[next], word) {
                match parse_at(f, ts, next + 1, level) {
                    Some((right, end)) => Some(
                        (
                            if level >= 2 {
                                FilterView::Or(Box::new(left), Box::new(right))
                            } else {
                                FilterView::And(Box::new(left), Box::new(right))
                            },
                            end,
                        ),
                    ),
                    None => None,
                }
            } else {
                Some((left, next))
            },
            None => None,
        }
    } else if is_word(ts[at], "not"@) {
        match parse_at(f, ts, at + 1, 0) {
            Some((inner, end)) => Some((FilterView::Not(Box::new(inner)), end)),
            None => None,
        }
    } else if ts[at] == TokenView::Open {
        match parse_at(f, ts, at + 1, 2) {
            Some((inner, next)) => if 0 <= next < ts.len() && ts[next] == TokenView::Close {
                Some((inner, next + 1))
            } else {
                None
            },
            None => None,
        }
    } else {
        comparison_at(f, ts, at)
    }
}

/// The filter that `text` writes for the family `f`, or `FilterSyntax`
/// where it writes none: where a part of it is no token, where the tokens
/// are no filter or more than one, where a column is not one of the
/// family, or where a column does not admit the comparison.
pub open spec fn parsed_filter(f: Family, text: Seq<char>) -> Result<FilterView, Error> {
    match lex(text, 0) {
        Some(ts) => match parse_at(f, ts, 0, 2) {
            Some((filter, end)) => if end == ts.len() {
                Ok(filter)
            } else {
                Err(Error::FilterSyntax)
            },
            None => Err(Error::FilterSyntax),
        },
        None => Err(Error::FilterSyntax),
    }
}

/// Whether every comparison of a filter names a column of the family `f`
/// and a literal that the column admits.
pub open spec fn typed(f: Family, filter: FilterView) -> bool
    decreases filter,
{
    match filter {
        FilterView::Cmp(c, op, lit) => kind_of(f, c) matches Some(kind) && admits(kind, op, lit),
        FilterView::And(a, b) => typed(f, *a) && typed(f, *b),
        FilterView::Or(a, b) => typed(f, *a) && typed(f, *b),
        FilterView::Not(a) => typed(f, *a),
    }
}

fn digit(c: char) -> (r: bool)
    ensures
        r == is_digit(c),
{
    '0' <= c && c <= '9'
}

fn word_start(c: char) -> (r: bool)
    ensures
        r == is_word_start(c),
{
    ('a' <= c && c <= 'z') || ('A' <= c && c <= 'Z') || c == '_'
}

fn belongs(class: Class, c: char) -> (r: bool)
    ensures
        r == in_class(class, c),
{
    match class {
        Class::Space => c == ' ' || c == '\t' || c == '\n' || c == '\r',
        Class::Digit => digit(c),
        Class::Word => word_start(c) || digit(c),
        Class::Quoted => c != '\'',
    }
}

fn scan(cs: &Vec<char>, from: usize, class: Class) -> (end: usize)
    requires
        from <= cs.len(),
    ensures
        end == run_end(cs@, from as int, class),
        from <= end <= cs.len(),
        forall|k: int| from <= k < end ==> in_class(class, #[trigger] cs@[k]),
{
    let mut i: usize = from;
    while i < cs.len() && belongs(class, cs[i])
        invariant
            from <= i <= cs.len(),
            run_end(cs@, from as int, class) == run_end(cs@, i as int, class),
            forall|k: int| from <= k < i ==> in_class(class, #[trigger] cs@[k]),
        decreases cs.len() - i,
    {
        i += 1;
    }
    i
}

/// A number does not shrink when digits follow it.
proof fn lemma_digits_grow(s: Seq<char>, lo: int, mid: int, hi: int)
    requires
        0 <= lo <= mid <= hi <= s.len(),
        forall|k: int| lo <= k < hi ==> is_digit(#[trigger] s[k]),
    ensures
        0 <= digits_value(s, lo, mid) <= digits_value(s, lo, hi),
    decreases hi - lo,
{
    if lo < hi {
        if mid < hi {
            lemma_digits_grow(s, lo, mid, hi - 1);
            assert(is_digit(s[hi - 1]));
        } else {
            lemma_digits_grow(s, lo, mid - 1, hi - 1);
            assert(is_digit(s[hi - 1]));
        }
    }
}

/// The number that the digits `cs[lo..hi]` write, where it is at most `limit`.
fn number(cs: &Vec<char>, lo: usize, hi: usize, limit: u64) -> (r: Option<u64>)
    requires
        lo <= hi <= cs.len(),
        forall|k: int| lo <= k < hi ==> is_digit(#[trigger] cs@[k]),
        9 <= limit <= 0x8000_0000_0000_0000,
    ensures
        match r {
            Some(v) => v == digits_value(cs@, lo as int, hi as int) && v <= limit,
            None => digits_value(cs@, lo as int, hi as int) > limit,
        },
{
    let mut v: u64 = 0;
    let mut i: usize = lo;
    while i < hi
        invariant
            lo <= i <= hi <= cs.len(),
            forall|k: int| lo <= k < hi ==> is_digit(#[trigger] cs@[k]),
            9 <= limit <= 0x8000_0000_0000_0000,
            v == digits_value(cs@, lo as int, i as int),
            v <= limit,
        decreases hi - i,
    {
        assert(is_digit(cs@[i as int]));
        let d: u64 = (cs[i] as u32 - 48) as u64;
        if v > (limit - d) / 10 {
            proof {
                assert(digits_value(cs@, lo as int, i + 1) == v * 10 + d);
                assert(v * 10 + d > limit);
                lemma_digits_grow(cs@, lo as int, i + 1, hi as int);
            }
            return None;
        }
        v = v * 10 + d;
        i += 1;
    }
    Some(v)
}

/// The token that begins at `at`.
fn read_token(cs: &Vec<char>, at: usize) -> (r: Option<(Token, usize)>)
    requires
        at < cs.len(),
    ensures
        match r {
            Some((t, next)) => token_at(cs@, at as int) == Some((t@, next as int)) && at < next
                <= cs.len(),
            None => token_at(cs@, at as int) is None,
        },
{
    let c = cs[at];
    if c == '(' {
        Some((Token::Open, at + 1))
    } else if c == ')' {
        Some((Token::Close, at + 1))
    } else if c == '=' {
        Some((Token::Eq, at + 1))
    } else if c == '!' {
        if at + 1 < cs.len() && cs[at + 1] == '=' {
            Some((Token::Ne, at + 2))
        } else {
            None
        }
    } else if c == '\'' {
        let close = scan(cs, at + 1, Class::Quoted);
        if close < cs.len() {
            Some((Token::Text(string_of(cs, at + 1, close)), close + 1))
        } else {
            None
        }
    } else if digit(c) {
        let end = scan(cs, at, Class::Digit);
        assert(end > at) by {
            assert(run_end(cs@, at as int, Class::Digit) == run_end(cs@, at + 1, Class::Digit));
            assert(run_end(cs@, at + 1, Class::Digit) >= at + 1) by {
                lemma_run_end(cs@, at + 1, Class::Digit);
            }
        }
        match number(cs, at, end, 0x7fff_ffff_ffff_ffff) {
            Some(v) => Some((Token::Int(v as i64), end)),
            None => None,
        }
    } else if c == '-' {
        let end = scan(cs, at + 1, Class::Digit);
        if at + 1 < end {
            match number(cs, at + 1, end, 0x8000_0000_0000_0000) {
                Some(v) => {
                    let n: i64 = if v == 0x8000_0000_0000_0000 {
                        i64::MIN
                    } else {
                        -(v as i64)
                    };
                    Some((Token::Int(n), end))
                },
                None => None,
            }
        } else {
            None
        }
    } else if word_start(c) {
        let end = scan(cs, at, Class::Word);
        assert(end > at) by {
            assert(run_end(cs@, at as int, Class::Word) == run_end(cs@, at + 1, Class::Word));
            lemma_run_end(cs@, at + 1, Class::Word);
        }
        Some((Token::Word(string_of(cs, at, end)), end))
    } else {
        None
    }
}

/// A run ends at or behind its beginning.
proof fn lemma_run_end(s: Seq<char>, from: int, class: Class)
    ensures
        run_end(s, from, class) >= from,
    decreases s.len() - from,
{
    if 0 <= from < s.len() && in_class(class, s[from]) {
        lemma_run_end(s, from + 1, class);
    }
}

/// The tokens of a text.
pub fn tokenize(text: &str) -> (r: Option<Vec<Token>>)
    ensures
        match r {
            Some(v) => lex(text@, 0) == Some(tokens(v@)),
            None => lex(text@, 0) is None,
        },
{
    let cs = chars_of(text);
    let mut out: Vec<Token> = Vec::new();
    let mut from: usize = 0;
    assert(tokens(out@) =~= Seq::<TokenView>::empty());
    loop
        invariant
            from <= cs.len(),
            cs@ == text@,
            lex(cs@, 0) == (match lex(cs@, from as int) {
                Some(rest) => Some(tokens(out@) + rest),
                None => None,
            }),
        decreases cs.len() - from,
    {
        let at = scan(&cs, from, Class::Space);
        if at >= cs.len() {
            assert(tokens(out@) + Seq::<TokenView>::empty() =~= tokens(out@));
            return Some(out);
        }
        match read_token(&cs, at) {
            None => {
                return None;
            },
            Some((t, next)) => {
                proof {
                    if let Some(rest) = lex(cs@, next as int) {
                        assert(tokens(out@) + (seq![t@] + rest) =~= tokens(out@).push(t@) + rest);
                    }
                    assert(tokens(out@.push(t)) =~= tokens(out@).push(t@));
                }
                out.push(t);
                from = next;
            },
        }
    }
}

impl Family {
    /// The column of the family that is called `name`, with its kind.
    pub fn column(self, name: &String) -> (r: Option<(Column, Kind)>)
        ensures
            r == column_of(self, name@),
            r matches Some((c, kind)) ==> kind_of(self, c) == Some(kind),
    {
        if same_text(name, "id") {
            return Some((Column::Id, Kind::Integer));
        }
        if same_text(name, "value") {
            return Some((Column::Value, Kind::Text));
        }
        if same_text(name, "unscoped") {
            return Some((Column::Unscoped, Kind::Boolean));
        }
        let parents = self.parent_columns();
        let ghost is_name = |n: Seq<char>| n == name@;
        let mut p: usize = 0;
        while p < parents.len()
            invariant
                p <= parents.len(),
                parents@.len() == self.parent_names().len(),
                parents@.len() == self.parent_families().len(),
                forall|i: int|
                    0 <= i < parents@.len() ==> (#[trigger] parents@[i])@
                        == self.parent_names()[i],
                is_name == |n: Seq<char>| n == name@,
                name@ != "id"@ && name@ != "value"@ && name@ != "unscoped"@,
                forall|i: int| 0 <= i < p ==> !is_name(#[trigger] self.parent_names()[i]),
            decreases parents.len() - p,
        {
            if same_text(name, parents[p]) {
                proof {
                    lemma_first_found(self.parent_names(), is_name, p as int);
                }
                return Some((Column::Parent(p), Kind::Integer));
            }
            p += 1;
        }
        proof {
            lemma_first_missing(self.parent_names(), is_name);
        }
        let names = self.attributes();
        let kinds = self.attribute_kinds();
        let mut a: usize = 0;
        while a < names.len()
            invariant
                a <= names.len(),
                names@.len() == self.attribute_names().len(),
                names@.len() == self.kinds().len(),
                kinds@ == self.kinds(),
                forall|i: int|
                    0 <= i < names@.len() ==> (#[trigger] names@[i])@ == self.attribute_names()[i],
                is_name == |n: Seq<char>| n == name@,
                name@ != "id"@ && name@ != "value"@ && name@ != "unscoped"@,
                name_index(self.parent_names(), name@) is None,
                forall|i: int| 0 <= i < a ==> !is_name(#[trigger] self.attribute_names()[i]),
            decreases names.len() - a,
        {
            if same_text(name, names[a]) {
                proof {
                    lemma_first_found(self.attribute_names(), is_name, a as int);
                }
                return Some((Column::Attr(a), kinds[a]));
            }
            a += 1;
        }
        proof {
            lemma_first_missing(self.attribute_names(), is_name);
        }
        None
    }
}

fn read_op(t: &Token) -> (r: Option<Op>)
    ensures
        r == op_of(t@),
{
    match t {
        Token::Eq => Some(Op::Eq),
        Token::Ne => Some(Op::Ne),
        Token::Word(w) => if same_text(w, "like") {
            Some(Op::Like)
        } else {
            None
        },
        _ => None,
    }
}

fn read_literal(t: &Token) -> (r: Option<Literal>)
    ensures
        match r {
            Some(lit) => literal_of(t@) == Some(lit@),
            None => literal_of(t@) is None,
        },
{
    match t {
        Token::Int(n) => Some(Literal::Int(*n)),
        Token::Text(s) => Some(Literal::Text(s.clone())),
        _ => None,
    }
}

fn admitted(kind: Kind, op: Op, lit: &Literal) -> (r: bool)
    ensures
        r == admits(kind, op, lit@),
{
    match (kind, lit) {
        (Kind::Integer, Literal::Int(_)) => !matches!(op, Op::Like),
        (Kind::Boolean, Literal::Int(_)) => !matches!(op, Op::Like),
        (Kind::Text, Literal::Text(_)) => true,
        _ => false,
    }
}

fn has_word(t: &Token, word: &str) -> (r: bool)
    ensures
        r == is_word(t@, word@),
{
    match t {
        Token::Word(w) => same_text(w, word),
        _ => false,
    }
}

fn read_comparison(family: Family, ts: &Vec<Token>, at: usize) -> (r: Option<(Filter, usize)>)
    ensures
        match r {
            Some((filter, end)) => comparison_at(family, tokens(ts@), at as int) == Some(
                (filter@, end as int),
            ) && at < end <= ts.len() && typed(family, filter@),
            None => comparison_at(family, tokens(ts@), at as int) is None,
        },
{
    if ts.len() < 3 || at >= ts.len() - 2 {
        return None;
    }
    assert(tokens(ts@)[at as int] == ts@[at as int]@);
    assert(tokens(ts@)[at + 1] == ts@[at + 1]@);
    assert(tokens(ts@)[at + 2] == ts@[at + 2]@);
    let name = match &ts[at] {
        Token::Word(name) => name,
        _ => {
            return None;
        },
    };
    let op = match read_op(&ts[at + 1]) {
        Some(op) => op,
        None => {
            return None;
        },
    };
    let lit = match read_literal(&ts[at + 2]) {
        Some(lit) => lit,
        None => {
            return None;
        },
    };
    match family.column(name) {
        Some((c, kind)) => if admitted(kind, op, &lit) {
            Some((Filter::Cmp(c, op, lit), at + 3))
        } else {
            None
        },
        None => None,
    }
}

fn read_filter(family: Family, ts: &Vec<Token>, at: usize, level: u8) -> (r: Option<
    (Filter, usize),
>)
    requires
        level <= 2,
    ensures
        match r {
            Some((filter, end)) => parse_at(family, tokens(ts@), at as int, level as int) == Some(
                (filter@, end as int),
            ) && at < end <= ts.len() && typed(family, filter@),
            None => parse_at(family, tokens(ts@), at as int, level as int) is None,
        },
    decreases ts.len() - at, level,
{
    if at >= ts.len() {
        return None;
    }
    assert(tokens(ts@)[at as int] == ts@[at as int]@);
    if level >= 1 {
        let word = if level >= 2 {
            "or"
        } else {
            "and"
        };
        let (left, next) = match read_filter(family, ts, at, level - 1) {
            Some(found) => found,
            None => {
                return None;
            },
        };
        if next < ts.len() {
            assert(tokens(ts@)[next as int] == ts@[next as int]@);
            if has_word(&ts[next], word) {
                return match read_filter(family, ts, next + 1, level) {
                    Some((right, end)) => {
                        let filter = if level >= 2 {
                            Filter::Or(Box::new(left), Box::new(right))
                        } else {
                            Filter::And(Box::new(left), Box::new(right))
                        };
                        Some((filter, end))
                    },
                    None => None,
                };
            }
        }
        Some((left, next))
    } else if has_word(&ts[at], "not") {
        match read_filter(family, ts, at + 1, 0) {
            Some((inner, end)) => Some((Filter::Not(Box::new(inner)), end)),
            None => None,
        }
    } else if matches!(ts[at], Token::Open) {
        match read_filter(family, ts, at + 1, 2) {
            Some((inner, next)) => {
                if next < ts.len() {
                    assert(tokens(ts@)[next as int] == ts@[next as int]@);
                    if matches!(ts[next], Token::Close) {
                        return Some((inner, next + 1));
                    }
                }
                None
            },
            None => None,
        }
    } else {
        read_comparison(family, ts, at)
    }
}

impl Filter {
    /// Reads `text` as a filter on the rows of the family. The store is not
    /// touched. A filter that is returned names only columns of the family,
    /// each with a literal that it admits.
    pub fn parse(family: Family, text: &str) -> (r: Result<Filter, Error>)
        ensures
            match r {
                Ok(filter) => parsed_filter(family, text@) == Ok::<FilterView, Error>(filter@)
                    && typed(family, filter@),
                Err(e) => parsed_filter(family, text@) == Err::<FilterView, Error>(e),
            },
    {
        let ts = match tokenize(text) {
            Some(ts) => ts,
            None => {
                return Err(Error::FilterSyntax);
            },
        };
        match read_filter(family, &ts, 0, 2) {
            Some((filter, end)) => if end == ts.len() {
                Ok(filter)
            } else {
                Err(Error::FilterSyntax)
            },
            None => Err(Error::FilterSyntax),
        }
    }
}

/// A comparison on a column that the family does not have is no filter:
/// reading it fails with `FilterSyntax`.
pub proof fn law_unknown_column(
    f: Family,
    text: Seq<char>,
    name: Seq<char>,
    op: TokenView,
    lit: TokenView,
)
    requires
        lex(text, 0) == Some(seq![TokenView::Word(name), op, lit]),
        column_of(f, name) is None,
    ensures
        parsed_filter(f, text) == Err::<FilterView, Error>(Error::FilterSyntax),
{
    let ts = seq![TokenView::Word(name), op, lit];
    reveal_with_fuel(parse_at, 12);
    assert(comparison_at(f, ts, 0) is None);
    assert(comparison_at(f, ts, 1) is None);
    assert(comparison_at(f, ts, 2) is None);
    assert(parse_at(f, ts, 3, 0) is None);
    assert(parse_at(f, ts, 3, 2) is None);
    assert(parse_at(f, ts, 2, 0) is None);
    assert(parse_at(f, ts, 2, 1) is None);
    assert(parse_at(f, ts, 2, 2) is None);
    assert(parse_at(f, ts, 1, 0) is None);
    assert(parse_at(f, ts, 0, 0) is None);
    assert(parse_at(f, ts, 0, 1) is None);
    assert(parse_at(f, ts, 0, 2) is None);
}

} // verus!
