//! The query that finds the files of an expression: a list of pieces of
//! SQL text and of values bound to placeholders.

use vstd::prelude::*;
use crate::entities::FileSort;
use crate::path::{components, dir_of, joined, name_of, within, ScopedPath};
use crate::query::{Expr, Expression, Operator};
use crate::text::{chars_of, same_text};

verus! {

pub const SELECT_FILES: &'static str =
    "
SELECT id, directory, name, fingerprint, mod_time, size, is_dir
FROM file
WHERE";

pub const TAG_EXPLICIT_HEAD: &'static str =
    "
id IN (SELECT file_id
       FROM file_tag
       WHERE tag_id = (SELECT id
                       FROM tag
                       WHERE name";

pub const TAG_EXPLICIT_TAIL: &'static str = "
                      )
      )";

pub const TAG_IMPLICIT_HEAD: &'static str =
    "
id IN (SELECT file_id
       FROM file_tag
       INNER JOIN (WITH RECURSIVE working (tag_id, value_id) AS
                   (
                       SELECT id, 0
                       FROM tag
                       WHERE name";

pub const TAG_IMPLICIT_TAIL: &'static str =
    "
                       UNION ALL
                       SELECT b.tag_id, b.value_id
                       FROM implication b, working
                       WHERE b.implied_tag_id = working.tag_id AND
                             (b.implied_value_id = working.value_id OR working.value_id = 0)
                   )
                   SELECT tag_id, value_id
                   FROM working
                  ) imps
       ON file_tag.tag_id = imps.tag_id
       AND (file_tag.value_id = imps.value_id OR imps.value_id = 0)
      )";

pub const COMP_EXPLICIT_MIDDLE: &'static str =
    "          )
         AND value_id = (SELECT id
                         FROM value
                         WHERE name";

pub const COMP_EXPLICIT_TAIL: &'static str = "           )
      )";

pub const COMP_IMPLICIT_HEAD: &'static str =
    "
id IN (WITH RECURSIVE impft (tag_id, value_id) AS
       (
           SELECT t.id, v.id
           FROM tag t, value v
           WHERE t.name";

pub const COMP_IMPLICIT_TAIL: &'static str =
    "
           UNION ALL
           SELECT b.tag_id, b.value_id
           FROM implication b, impft
           WHERE b.implied_tag_id = impft.tag_id AND
                 (b.implied_value_id = impft.value_id OR impft.value_id = 0)
       )

       SELECT file_id
       FROM file_tag
       INNER JOIN impft
       ON file_tag.tag_id = impft.tag_id AND
          file_tag.value_id = impft.value_id
      )";

pub const NOCASE: &'static str = " COLLATE NOCASE";

pub const EQUALS: &'static str = " = ";

pub const VALUE_AS_NUMBER: &'static str = "CAST(v.name AS float)";

pub const VALUE_AS_TEXT: &'static str = "v.name";

pub const IN_ROOT: &'static str = "directory NOT LIKE '/%'";

pub const OR_IN_ROOT: &'static str = " OR directory NOT LIKE '/%'";

pub const ORDER_BY_ID: &'static str = "ORDER BY id";

pub const ORDER_BY_NAME: &'static str = "ORDER BY directory || '/' || name";

pub const ORDER_BY_TIME: &'static str = "ORDER BY mod_time, directory || '/' || name";

pub const ORDER_BY_SIZE: &'static str = "ORDER BY size, directory || '/' || name";

/// One piece of a query.
#[derive(Debug, Clone, PartialEq, Eq)]
pub enum Part {
    /// SQL text.
    Sql(String),
    /// A placeholder, and the value bound to it.
    Param(String),
}

/// One piece of a query as mathematics.
pub enum Piece {
    Sql(Seq<char>),
    Param(Seq<char>),
}

impl View for Part {
    type V = Piece;

    open spec fn view(&self) -> Piece {
        match self {
            Part::Sql(s) => Piece::Sql(s@),
            Part::Param(s) => Piece::Param(s@),
        }
    }
}

/// A query under construction.
pub struct SqlBuilder {
    pub parts: Vec<Part>,
}

impl View for SqlBuilder {
    type V = Seq<Piece>;

    open spec fn view(&self) -> Seq<Piece> {
        self.parts@.map_values(|p: Part| p@)
    }
}

/// The text of a query: its pieces, each behind one space, a
/// placeholder written as a question mark.
pub open spec fn rendered(pieces: Seq<Piece>) -> Seq<char>
    decreases pieces.len(),
{
    if pieces.len() == 0 {
        seq![]
    } else {
        rendered(pieces.drop_last()).push(' ') + match pieces.last() {
            Piece::Sql(s) => s,
            Piece::Param(_) => seq!['?'],
        }
    }
}

/// The values bound to the placeholders of a query, in their order.
pub open spec fn bound(pieces: Seq<Piece>) -> Seq<Seq<char>>
    decreases pieces.len(),
{
    if pieces.len() == 0 {
        seq![]
    } else {
        bound(pieces.drop_last()) + match pieces.last() {
            Piece::Sql(_) => seq![],
            Piece::Param(v) => seq![v],
        }
    }
}

impl SqlBuilder {
    pub fn new() -> (r: Self)
        ensures
            r@ == Seq::<Piece>::empty(),
    {
        let r = SqlBuilder { parts: Vec::new() };
        assert(r@ =~= Seq::<Piece>::empty());
        r
    }

    pub fn append_sql(&mut self, sql: &str)
        ensures
            final(self)@ == old(self)@.push(Piece::Sql(sql@)),
    {
        self.parts.push(Part::Sql(sql.to_owned()));
        assert(self@ =~= old(self)@.push(Piece::Sql(sql@)));
    }

    pub fn append_param(&mut self, value: String)
        ensures
            final(self)@ == old(self)@.push(Piece::Param(value@)),
    {
        self.parts.push(Part::Param(value));
        assert(self@ =~= old(self)@.push(Piece::Param(value@)));
    }

    /// The text of the query.
    pub fn sql(&self) -> (r: String)
        ensures
            r@ == rendered(self@),
    {
        let mut out = String::new();
        let mut i: usize = 0;
        assert(self@.take(0) =~= Seq::<Piece>::empty());
        while i < self.parts.len()
            invariant
                i <= self.parts.len(),
                self@.len() == self.parts.len(),
                out@ == rendered(self@.take(i as int)),
            decreases self.parts.len() - i,
        {
            assert(self@.take(i + 1).drop_last() =~= self@.take(i as int));
            assert(self@.take(i + 1).last() == self.parts@[i as int]@);
            out.push(' ');
            match &self.parts[i] {
                Part::Sql(s) => out.append(s.as_str()),
                Part::Param(_) => {
                    out.push('?');
                    assert(out@ =~= rendered(self@.take(i as int)).push(' ') + seq!['?']);
                },
            }
            i += 1;
        }
        assert(self@.take(self.parts.len() as int) =~= self@);
        out
    }

    /// The values bound to the placeholders, in their order.
    pub fn params(&self) -> (r: Vec<String>)
        ensures
            crate::query::names_of(r@) == bound(self@),
    {
        let mut out: Vec<String> = Vec::new();
        let mut i: usize = 0;
        assert(self@.take(0) =~= Seq::<Piece>::empty());
        assert(crate::query::names_of(out@) =~= bound(self@.take(0)));
        while i < self.parts.len()
            invariant
                i <= self.parts.len(),
                self@.len() == self.parts.len(),
                crate::query::names_of(out@) == bound(self@.take(i as int)),
            decreases self.parts.len() - i,
        {
            assert(self@.take(i + 1).drop_last() =~= self@.take(i as int));
            assert(self@.take(i + 1).last() == self.parts@[i as int]@);
            let ghost before = crate::query::names_of(out@);
            match &self.parts[i] {
                Part::Sql(_) => {
                    assert(before + Seq::<Seq<char>>::empty() =~= before);
                },
                Part::Param(v) => {
                    out.push(v.clone());
                    assert(crate::query::names_of(out@) =~= before + seq![v@]);
                },
            }
            i += 1;
        }
        assert(self@.take(self.parts.len() as int) =~= self@);
        out
    }
}

/// What is put behind a name to compare it without regard to case.
pub open spec fn collation(ignore_case: bool) -> Seq<char> {
    if ignore_case {
        NOCASE@
    } else {
        seq![]
    }
}

pub fn collation_for(ignore_case: bool) -> (r: &'static str)
    ensures
        r@ == collation(ignore_case),
{
    if ignore_case {
        NOCASE
    } else {
        let r = "";
        proof {
            reveal_strlit("");
            assert(r@ =~= seq![]);
        }
        r
    }
}

/// Whether a value is among those that read as numbers.
pub open spec fn is_listed(numeric: Seq<String>, value: Seq<char>) -> bool {
    exists|i: int| 0 <= i < numeric.len() && (#[trigger] numeric[i])@ == value
}

fn is_number(numeric: &Vec<String>, value: &str) -> (r: bool)
    ensures
        r == is_listed(numeric@, value@),
{
    let mut i: usize = 0;
    while i < numeric.len()
        invariant
            i <= numeric.len(),
            forall|j: int| 0 <= j < i ==> (#[trigger] numeric@[j])@ != value@,
        decreases numeric.len() - i,
    {
        if same_text(numeric[i].as_str(), value) {
            return true;
        }
        i += 1;
    }
    false
}

/// The sign of an operator in SQL. Inequality is written as equality:
/// the clause around it is negated.
pub open spec fn sign(op: Operator) -> Seq<char> {
    match op {
        Operator::Equal => "=="@,
        Operator::Different => "=="@,
        Operator::LessThan => "<"@,
        Operator::LessThanOrEqual => "<="@,
        Operator::MoreThan => ">"@,
        Operator::MoreThanOrEqual => ">="@,
    }
}

fn sign_of(op: Operator) -> (r: &'static str)
    ensures
        r@ == sign(op),
{
    match op {
        Operator::Equal => "==",
        Operator::Different => "==",
        Operator::LessThan => "<",
        Operator::LessThanOrEqual => "<=",
        Operator::MoreThan => ">",
        Operator::MoreThanOrEqual => ">=",
    }
}

/// The pieces that select the files of a tag.
pub open spec fn tag_pieces(tag: Seq<char>, explicit_only: bool, ignore_case: bool) -> Seq<Piece> {
    if explicit_only {
        seq![
            Piece::Sql(TAG_EXPLICIT_HEAD@),
            Piece::Sql(collation(ignore_case)),
            Piece::Sql(EQUALS@),
            Piece::Param(tag),
            Piece::Sql(TAG_EXPLICIT_TAIL@),
        ]
    } else {
        seq![
            Piece::Sql(TAG_IMPLICIT_HEAD@),
            Piece::Sql(collation(ignore_case)),
            Piece::Sql(EQUALS@),
            Piece::Param(tag),
            Piece::Sql(TAG_IMPLICIT_TAIL@),
        ]
    }
}

/// The pieces that select the files of a comparison. With explicit
/// tags only, the value is compared for equality whatever the operator;
/// else the operator is applied, to numbers where the value is listed as
/// one that reads as a number.
pub open spec fn comp_pieces(
    tag: Seq<char>,
    op: Operator,
    value: Seq<char>,
    explicit_only: bool,
    ignore_case: bool,
    numeric: Seq<String>,
) -> Seq<Piece> {
    let negation = if op == Operator::Different {
        seq![Piece::Sql(" NOT "@)]
    } else {
        seq![]
    };
    negation + if explicit_only {
        seq![
            Piece::Sql(TAG_EXPLICIT_HEAD@),
            Piece::Sql(collation(ignore_case)),
            Piece::Sql(EQUALS@),
            Piece::Param(tag),
            Piece::Sql(COMP_EXPLICIT_MIDDLE@),
            Piece::Sql(collation(ignore_case)),
            Piece::Sql(EQUALS@),
            Piece::Param(value),
            Piece::Sql(COMP_EXPLICIT_TAIL@),
        ]
    } else {
        seq![
            Piece::Sql(COMP_IMPLICIT_HEAD@),
            Piece::Sql(collation(ignore_case)),
            Piece::Sql(EQUALS@),
            Piece::Param(tag),
            Piece::Sql(" AND "@),
            Piece::Sql(
                if is_listed(numeric, value) {
                    VALUE_AS_NUMBER@
                } else {
                    VALUE_AS_TEXT@
                },
            ),
            Piece::Sql(collation(ignore_case)),
            Piece::Sql(" "@),
            Piece::Sql(sign(op)),
            Piece::Sql(" "@),
            Piece::Param(value),
            Piece::Sql(COMP_IMPLICIT_TAIL@),
        ]
    }
}

/// The pieces that select the files of an expression.
pub open spec fn branch_pieces(
    e: Expr,
    explicit_only: bool,
    ignore_case: bool,
    numeric: Seq<String>,
) -> Seq<Piece>
    decreases e,
{
    match e {
        Expr::Tag(t) => tag_pieces(t, explicit_only, ignore_case),
        Expr::Comparison(t, op, v) => comp_pieces(t, op, v, explicit_only, ignore_case, numeric),
        Expr::Not(x) => seq![Piece::Sql("NOT"@)] + branch_pieces(*x, explicit_only, ignore_case, numeric),
        Expr::And(l, r) => branch_pieces(*l, explicit_only, ignore_case, numeric) + seq![
            Piece::Sql("AND"@),
        ] + branch_pieces(*r, explicit_only, ignore_case, numeric),
        Expr::Or(l, r) => seq![Piece::Sql("("@)] + branch_pieces(*l, explicit_only, ignore_case, numeric)
            + seq![Piece::Sql("OR"@)] + branch_pieces(*r, explicit_only, ignore_case, numeric) + seq![
            Piece::Sql(")"@),
        ],
    }
}

pub fn build_tag_query_branch(
    builder: &mut SqlBuilder,
    tag: &String,
    explicit_only: bool,
    ignore_case: bool,
)
    ensures
        final(builder)@ == old(builder)@ + tag_pieces(tag@, explicit_only, ignore_case),
{
    let collation = collation_for(ignore_case);
    if explicit_only {
        builder.append_sql(TAG_EXPLICIT_HEAD);
        builder.append_sql(collation);
        builder.append_sql(EQUALS);
        builder.append_param(tag.clone());
        builder.append_sql(TAG_EXPLICIT_TAIL);
    } else {
        builder.append_sql(TAG_IMPLICIT_HEAD);
        builder.append_sql(collation);
        builder.append_sql(EQUALS);
        builder.append_param(tag.clone());
        builder.append_sql(TAG_IMPLICIT_TAIL);
    }
    assert(builder@ =~= old(builder)@ + tag_pieces(tag@, explicit_only, ignore_case));
}

pub fn build_comp_query_branch(
    builder: &mut SqlBuilder,
    tag: &String,
    operator: Operator,
    value: &String,
    explicit_only: bool,
    ignore_case: bool,
    numeric: &Vec<String>,
)
    ensures
        final(builder)@ == old(builder)@ + comp_pieces(
            tag@,
            operator,
            value@,
            explicit_only,
            ignore_case,
            numeric@,
        ),
{
    let collation = collation_for(ignore_case);
    let value_term = if is_number(numeric, value.as_str()) {
        VALUE_AS_NUMBER
    } else {
        VALUE_AS_TEXT
    };
    let sign = sign_of(operator);
    match operator {
        Operator::Different => {
            builder.append_sql(" NOT ");
        },
        _ => {},
    }
    if explicit_only {
        builder.append_sql(TAG_EXPLICIT_HEAD);
        builder.append_sql(collation);
        builder.append_sql(EQUALS);
        builder.append_param(tag.clone());
        builder.append_sql(COMP_EXPLICIT_MIDDLE);
        builder.append_sql(collation);
        builder.append_sql(EQUALS);
        builder.append_param(value.clone());
        builder.append_sql(COMP_EXPLICIT_TAIL);
    } else {
        builder.append_sql(COMP_IMPLICIT_HEAD);
        builder.append_sql(collation);
        builder.append_sql(EQUALS);
        builder.append_param(tag.clone());
        builder.append_sql(" AND ");
        builder.append_sql(value_term);
        builder.append_sql(collation);
        builder.append_sql(" ");
        builder.append_sql(sign);
        builder.append_sql(" ");
        builder.append_param(value.clone());
        builder.append_sql(COMP_IMPLICIT_TAIL);
    }
    assert(builder@ =~= old(builder)@ + comp_pieces(
        tag@,
        operator,
        value@,
        explicit_only,
        ignore_case,
        numeric@,
    ));
}

pub fn build_query_branch(
    builder: &mut SqlBuilder,
    expression: &Expression,
    explicit_only: bool,
    ignore_case: bool,
    numeric: &Vec<String>,
)
    ensures
        final(builder)@ == old(builder)@ + branch_pieces(
            expression@,
            explicit_only,
            ignore_case,
            numeric@,
        ),
    decreases expression,
{
    match expression {
        Expression::Not(n) => {
            builder.append_sql("NOT");
            build_query_branch(builder, &n.operand, explicit_only, ignore_case, numeric);
        },
        Expression::And(a) => {
            build_query_branch(builder, &a.left, explicit_only, ignore_case, numeric);
            builder.append_sql("AND");
            build_query_branch(builder, &a.right, explicit_only, ignore_case, numeric);
        },
        Expression::Or(o) => {
            builder.append_sql("(");
            build_query_branch(builder, &o.left, explicit_only, ignore_case, numeric);
            builder.append_sql("OR");
            build_query_branch(builder, &o.right, explicit_only, ignore_case, numeric);
            builder.append_sql(")");
        },
        Expression::Tag(t) => {
            build_tag_query_branch(builder, &t.tag, explicit_only, ignore_case);
        },
        Expression::Comparison(c) => {
            build_comp_query_branch(
                builder,
                &c.tag,
                c.operator,
                &c.value,
                explicit_only,
                ignore_case,
                numeric,
            );
        },
    }
    assert(builder@ =~= old(builder)@ + branch_pieces(
        expression@,
        explicit_only,
        ignore_case,
        numeric@,
    ));
}

/// The pieces that keep a query to the files at or under a path.
pub open spec fn path_pieces(inner: Seq<char>, base: Seq<char>, absolute: Seq<char>) -> Seq<Piece> {
    seq![Piece::Sql("AND ("@)] + (if inner == "."@ {
        seq![Piece::Sql(IN_ROOT@)]
    } else {
        seq![
            Piece::Sql("directory = "@),
            Piece::Param(inner),
            Piece::Sql(" OR directory LIKE "@),
            Piece::Param(joined(inner, "%"@)),
        ] + if within(base, absolute) {
            seq![Piece::Sql(OR_IN_ROOT@)]
        } else {
            seq![]
        }
    }) + (if components(absolute).len() > 0 {
        seq![
            Piece::Sql(" OR (directory = "@),
            Piece::Param(dir_of(absolute)),
            Piece::Sql(" AND name = "@),
            Piece::Param(name_of(absolute)),
            Piece::Sql(")"@),
        ]
    } else {
        seq![]
    }) + seq![Piece::Sql(")"@)]
}

pub fn build_path_clause(builder: &mut SqlBuilder, path: &ScopedPath)
    ensures
        final(builder)@ == old(builder)@ + path_pieces(
            path.inner@,
            path.base.text(),
            path.absolute.text(),
        ),
{
    builder.append_sql("AND (");
    if same_text(path.inner(), ".") {
        builder.append_sql(IN_ROOT);
    } else {
        builder.append_sql("directory = ");
        builder.append_param(path.inner.clone());
        builder.append_sql(" OR directory LIKE ");
        builder.append_param(crate::path::join(path.inner(), "%"));
        if path.contains_root() {
            builder.append_sql(OR_IN_ROOT);
        }
    }
    let parts = crate::path::split(&chars_of(path.absolute.as_str()));
    assert(crate::path::texts(parts@).len() == parts.len());
    if parts.len() > 0 {
        let whole = ScopedPath {
            base: path.base.clone(),
            inner: path.absolute.0.clone(),
            absolute: path.absolute.clone(),
        };
        let (dir, name) = whole.inner_as_dir_and_name();
        builder.append_sql(" OR (directory = ");
        builder.append_param(dir);
        builder.append_sql(" AND name = ");
        builder.append_param(name);
        builder.append_sql(")");
    }
    builder.append_sql(")");
    assert(builder@ =~= old(builder)@ + path_pieces(
        path.inner@,
        path.base.text(),
        path.absolute.text(),
    ));
}

/// The piece that orders the files.
pub open spec fn sort_piece(sort_type: FileSort) -> Seq<char> {
    match sort_type {
        FileSort::Id => ORDER_BY_ID@,
        FileSort::Name => ORDER_BY_NAME@,
        FileSort::Time => ORDER_BY_TIME@,
        FileSort::Size => ORDER_BY_SIZE@,
    }
}

pub fn build_sort(builder: &mut SqlBuilder, sort_type: FileSort)
    ensures
        final(builder)@ == old(builder)@.push(Piece::Sql(sort_piece(sort_type))),
{
    match sort_type {
        FileSort::Id => builder.append_sql(ORDER_BY_ID),
        FileSort::Name => builder.append_sql(ORDER_BY_NAME),
        FileSort::Time => builder.append_sql(ORDER_BY_TIME),
        FileSort::Size => builder.append_sql(ORDER_BY_SIZE),
    }
}

/// The pieces of the query for the files of an expression, given the
/// values that read as numbers: the
/// selection, the condition of the expression or one that always holds,
/// the condition of the path, and the order.
pub open spec fn query_pieces(
    expression: Option<Expr>,
    explicit_only: bool,
    ignore_case: bool,
    path: Option<(Seq<char>, Seq<char>, Seq<char>)>,
    file_sort: Option<FileSort>,
    numeric: Seq<String>,
) -> Seq<Piece> {
    seq![Piece::Sql(SELECT_FILES@)] + (match expression {
        Some(e) => branch_pieces(e, explicit_only, ignore_case, numeric),
        None => seq![Piece::Sql("1 == 1"@)],
    }) + (match path {
        Some(p) => path_pieces(p.0, p.1, p.2),
        None => seq![],
    }) + (match file_sort {
        Some(s) => seq![Piece::Sql(sort_piece(s))],
        None => seq![],
    })
}

/// What a query needs of a scoped path: its stored form, its base and
/// its absolute form.
pub open spec fn path_key(path: Option<&ScopedPath>) -> Option<(Seq<char>, Seq<char>, Seq<char>)> {
    match path {
        Some(p) => Some((p.inner@, p.base.text(), p.absolute.text())),
        None => None,
    }
}

/// The tree of an expression that may be absent.
pub open spec fn tree_of(expression: Option<&Expression>) -> Option<Expr> {
    match expression {
        Some(e) => Some(e@),
        None => None,
    }
}

pub fn build_query(
    expression: Option<&Expression>,
    explicit_only: bool,
    ignore_case: bool,
    path: Option<&ScopedPath>,
    file_sort: Option<FileSort>,
    numeric: &Vec<String>,
) -> (builder: SqlBuilder)
    ensures
        builder@ == query_pieces(
            tree_of(expression),
            explicit_only,
            ignore_case,
            path_key(path),
            file_sort,
            numeric@,
        ),
{
    let mut builder = SqlBuilder::new();
    builder.append_sql(SELECT_FILES);
    match expression {
        Some(e) => build_query_branch(&mut builder, e, explicit_only, ignore_case, numeric),
        None => builder.append_sql("1 == 1"),
    }
    match path {
        Some(p) => build_path_clause(&mut builder, p),
        None => {},
    }
    match file_sort {
        Some(s) => build_sort(&mut builder, s),
        None => {},
    }
    assert(builder@ =~= query_pieces(
        tree_of(expression),
        explicit_only,
        ignore_case,
        path_key(path),
        file_sort,
        numeric@,
    ));
    builder
}


/// Whether two expressions differ at most in the case of their names:
/// they have one shape and the same operators, the names at each place
/// agree in lower case, and the values at each place read both as
/// numbers or both not.
pub open spec fn same_but_case(a: Expr, b: Expr, numeric: Seq<String>) -> bool
    decreases a,
{
    match (a, b) {
        (Expr::Tag(s), Expr::Tag(t)) => crate::path::lowercase(s) == crate::path::lowercase(t),
        (Expr::Comparison(s, o, v), Expr::Comparison(t, p, w)) => crate::path::lowercase(s)
            == crate::path::lowercase(t) && o == p && crate::path::lowercase(v)
            == crate::path::lowercase(w) && is_listed(numeric, v) == is_listed(numeric, w),
        (Expr::Not(x), Expr::Not(y)) => same_but_case(*x, *y, numeric),
        (Expr::And(l, r), Expr::And(m, q)) => same_but_case(*l, *m, numeric) && same_but_case(
            *r,
            *q,
            numeric,
        ),
        (Expr::Or(l, r), Expr::Or(m, q)) => same_but_case(*l, *m, numeric) && same_but_case(
            *r,
            *q,
            numeric,
        ),
        _ => false,
    }
}

/// Whether two pieces are the same SQL text, or bound values that agree
/// in lower case.
pub open spec fn piece_alike(a: Piece, b: Piece) -> bool {
    match (a, b) {
        (Piece::Sql(s), Piece::Sql(t)) => s == t,
        (Piece::Param(s), Piece::Param(t)) => crate::path::lowercase(s) == crate::path::lowercase(
            t,
        ),
        _ => false,
    }
}

/// Whether two queries have the same SQL text and bound values that
/// agree in lower case.
pub open spec fn alike(a: Seq<Piece>, b: Seq<Piece>) -> bool {
    a.len() == b.len() && forall|i: int| 0 <= i < a.len() ==> piece_alike(#[trigger] a[i], b[i])
}

proof fn lemma_alike_joined(a: Seq<Piece>, b: Seq<Piece>, c: Seq<Piece>, d: Seq<Piece>)
    requires
        alike(a, c),
        alike(b, d),
    ensures
        alike(a + b, c + d),
{
    assert forall|i: int| 0 <= i < (a + b).len() implies piece_alike(
        #[trigger] (a + b)[i],
        (c + d)[i],
    ) by {
        if i < a.len() {
            assert(piece_alike(a[i], c[i]));
        } else {
            assert(piece_alike(b[i - a.len()], d[i - a.len()]));
        }
    }
}

proof fn lemma_alike_itself(a: Seq<Piece>)
    requires
        forall|i: int| 0 <= i < a.len() ==> (#[trigger] a[i]) is Sql,
    ensures
        alike(a, a),
{
}

/// The case of the names of an expression shows in the values bound to
/// its query and nowhere else: the queries of two expressions that
/// differ at most in the case of their names have the same SQL text, and
/// their bound values agree in lower case. Where case is ignored, the
/// store compares each bound name without regard to case too.
pub proof fn lemma_case_is_bound(
    a: Expr,
    b: Expr,
    explicit_only: bool,
    ignore_case: bool,
    numeric: Seq<String>,
)
    requires
        same_but_case(a, b, numeric),
    ensures
        alike(
            branch_pieces(a, explicit_only, ignore_case, numeric),
            branch_pieces(b, explicit_only, ignore_case, numeric),
        ),
    decreases a,
{
    match (a, b) {
        (Expr::Not(x), Expr::Not(y)) => {
            lemma_case_is_bound(*x, *y, explicit_only, ignore_case, numeric);
            lemma_alike_itself(seq![Piece::Sql("NOT"@)]);
            lemma_alike_joined(
                seq![Piece::Sql("NOT"@)],
                branch_pieces(*x, explicit_only, ignore_case, numeric),
                seq![Piece::Sql("NOT"@)],
                branch_pieces(*y, explicit_only, ignore_case, numeric),
            );
        },
        (Expr::And(l, r), Expr::And(m, q)) => {
            lemma_case_is_bound(*l, *m, explicit_only, ignore_case, numeric);
            lemma_case_is_bound(*r, *q, explicit_only, ignore_case, numeric);
            let word = seq![Piece::Sql("AND"@)];
            lemma_alike_itself(word);
            let pl = branch_pieces(*l, explicit_only, ignore_case, numeric);
            let pm = branch_pieces(*m, explicit_only, ignore_case, numeric);
            lemma_alike_joined(pl, word, pm, word);
            lemma_alike_joined(
                pl + word,
                branch_pieces(*r, explicit_only, ignore_case, numeric),
                pm + word,
                branch_pieces(*q, explicit_only, ignore_case, numeric),
            );
        },
        (Expr::Or(l, r), Expr::Or(m, q)) => {
            lemma_case_is_bound(*l, *m, explicit_only, ignore_case, numeric);
            lemma_case_is_bound(*r, *q, explicit_only, ignore_case, numeric);
            let open = seq![Piece::Sql("("@)];
            let word = seq![Piece::Sql("OR"@)];
            let close = seq![Piece::Sql(")"@)];
            lemma_alike_itself(open);
            lemma_alike_itself(word);
            lemma_alike_itself(close);
            let pl = branch_pieces(*l, explicit_only, ignore_case, numeric);
            let pm = branch_pieces(*m, explicit_only, ignore_case, numeric);
            let pr = branch_pieces(*r, explicit_only, ignore_case, numeric);
            let pq = branch_pieces(*q, explicit_only, ignore_case, numeric);
            lemma_alike_joined(open, pl, open, pm);
            lemma_alike_joined(open + pl, word, open + pm, word);
            lemma_alike_joined(open + pl + word, pr, open + pm + word, pq);
            lemma_alike_joined(open + pl + word + pr, close, open + pm + word + pq, close);
        },
        (Expr::Comparison(s, o, v), Expr::Comparison(t, p, w)) => {
            let x = comp_pieces(s, o, v, explicit_only, ignore_case, numeric);
            let y = comp_pieces(t, p, w, explicit_only, ignore_case, numeric);
            assert(x.len() == y.len());
            assert forall|i: int| 0 <= i < x.len() implies piece_alike(#[trigger] x[i], y[i]) by {}
        },
        _ => {},
    }
}

} // verus!
