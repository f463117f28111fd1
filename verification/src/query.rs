//! Queries over tags: the expression tree and what can be read off it.

use vstd::prelude::*;
use crate::errors::Error;
use crate::text::{chars_of, string_of};

pub mod parser;
pub mod roundtrip;

verus! {

#[derive(Debug, Clone, Copy, PartialEq, Eq, Structural)]
pub enum Operator {
    Different,
    Equal,
    LessThan,
    LessThanOrEqual,
    MoreThan,
    MoreThanOrEqual,
}

#[derive(Debug, PartialEq)]
pub struct TagExpression {
    pub tag: String,
}

#[derive(Debug, PartialEq)]
pub struct NotExpression {
    pub operand: Box<Expression>,
}

#[derive(Debug, PartialEq)]
pub struct AndExpression {
    pub left: Box<Expression>,
    pub right: Box<Expression>,
}

#[derive(Debug, PartialEq)]
pub struct OrExpression {
    pub left: Box<Expression>,
    pub right: Box<Expression>,
}

#[derive(Debug, PartialEq)]
pub struct ComparisonExpression {
    pub tag: String,
    pub operator: Operator,
    pub value: String,
}

#[derive(Debug, PartialEq)]
pub enum Expression {
    Tag(TagExpression),
    Not(NotExpression),
    And(AndExpression),
    Or(OrExpression),
    Comparison(ComparisonExpression),
}

/// An expression as a mathematical tree over sequences of characters.
pub enum Expr {
    Tag(Seq<char>),
    Not(Box<Expr>),
    And(Box<Expr>, Box<Expr>),
    Or(Box<Expr>, Box<Expr>),
    Comparison(Seq<char>, Operator, Seq<char>),
}

impl Expr {
    /// All tag names of the expression, those inside comparisons too, from
    /// left to right.
    pub open spec fn tag_names(self) -> Seq<Seq<char>>
        decreases self,
    {
        match self {
            Expr::Tag(t) => seq![t],
            Expr::Not(e) => e.tag_names(),
            Expr::And(l, r) => l.tag_names() + r.tag_names(),
            Expr::Or(l, r) => l.tag_names() + r.tag_names(),
            Expr::Comparison(t, _, _) => seq![t],
        }
    }

    /// The value names that stand under `=` or `!=`, from left to right.
    pub open spec fn exact_value_names(self) -> Seq<Seq<char>>
        decreases self,
    {
        match self {
            Expr::Tag(_) => seq![],
            Expr::Not(e) => e.exact_value_names(),
            Expr::And(l, r) => l.exact_value_names() + r.exact_value_names(),
            Expr::Or(l, r) => l.exact_value_names() + r.exact_value_names(),
            Expr::Comparison(_, op, v) => if op == Operator::Equal || op == Operator::Different {
                seq![v]
            } else {
                seq![]
            },
        }
    }
}

impl Expression {
    /// The expression as a mathematical tree.
    pub open spec fn tree(&self) -> Expr
        decreases self,
    {
        match self {
            Expression::Tag(t) => Expr::Tag(t.tag@),
            Expression::Not(n) => Expr::Not(Box::new((*n.operand).tree())),
            Expression::And(a) => Expr::And(
                Box::new((*a.left).tree()),
                Box::new((*a.right).tree()),
            ),
            Expression::Or(o) => Expr::Or(Box::new((*o.left).tree()), Box::new((*o.right).tree())),
            Expression::Comparison(c) => Expr::Comparison(c.tag@, c.operator, c.value@),
        }
    }
}

impl Expr {
    /// The values that stand in comparisons, from left to right.
    pub open spec fn compared_values(self) -> Seq<Seq<char>>
        decreases self,
    {
        match self {
            Expr::Tag(_) => seq![],
            Expr::Not(e) => e.compared_values(),
            Expr::And(l, r) => l.compared_values() + r.compared_values(),
            Expr::Or(l, r) => l.compared_values() + r.compared_values(),
            Expr::Comparison(_, _, v) => seq![v],
        }
    }
}

/// A name with a backslash before each of its characters.
pub open spec fn escaped(name: Seq<char>) -> Seq<char>
    decreases name.len(),
{
    if name.len() == 0 {
        seq![]
    } else {
        seq!['\\', name[0]] + escaped(name.drop_first())
    }
}

/// Escaping a name with one more character adds that character behind
/// a backslash.
pub proof fn lemma_escaped_push(name: Seq<char>, c: char)
    ensures
        escaped(name.push(c)) == escaped(name) + seq!['\\', c],
    decreases name.len(),
{
    if name.len() == 0 {
        assert(name.push(c).drop_first() =~= name);
        assert(escaped(name.push(c)) =~= escaped(name) + seq!['\\', c]);
    } else {
        lemma_escaped_push(name.drop_first(), c);
        assert(name.push(c).drop_first() =~= name.drop_first().push(c));
        assert(escaped(name.push(c)) =~= escaped(name) + seq!['\\', c]);
    }
}

/// An escaped name is twice as long as the name.
pub proof fn lemma_escaped_len(name: Seq<char>)
    ensures
        escaped(name).len() == 2 * name.len(),
    decreases name.len(),
{
    if name.len() > 0 {
        lemma_escaped_len(name.drop_first());
    }
}

/// The sign of an operator in a query.
pub open spec fn sign_text(op: Operator) -> Seq<char> {
    match op {
        Operator::Equal => seq!['=', '='],
        Operator::Different => seq!['!', '='],
        Operator::LessThan => seq!['<'],
        Operator::LessThanOrEqual => seq!['<', '='],
        Operator::MoreThan => seq!['>'],
        Operator::MoreThanOrEqual => seq!['>', '='],
    }
}

impl Expr {
    /// The expression as the text of a query: every name escaped
    /// character by character, every operand of `not`, `and` and `or` in
    /// parentheses.
    pub open spec fn rendering(self) -> Seq<char>
        decreases self,
    {
        match self {
            Expr::Tag(t) => escaped(t),
            Expr::Comparison(t, op, v) => escaped(t) + sign_text(op) + escaped(v),
            Expr::Not(x) => seq!['n', 'o', 't', '('] + x.rendering() + seq![')'],
            Expr::And(l, r) => seq!['('] + l.rendering() + seq![')', 'a', 'n', 'd', '(']
                + r.rendering() + seq![')'],
            Expr::Or(l, r) => seq!['('] + l.rendering() + seq![')', 'o', 'r', '('] + r.rendering()
                + seq![')'],
        }
    }
}

fn push_escaped(out: &mut Vec<char>, name: &str)
    ensures
        final(out)@ == old(out)@ + escaped(name@),
{
    let v = chars_of(name);
    let mut i: usize = 0;
    assert(v@.take(0) =~= Seq::<char>::empty());
    assert(out@ =~= old(out)@ + escaped(v@.take(0)));
    while i < v.len()
        invariant
            i <= v.len(),
            out@ == old(out)@ + escaped(v@.take(i as int)),
        decreases v.len() - i,
    {
        proof {
            lemma_escaped_push(v@.take(i as int), v@[i as int]);
            assert(v@.take(i + 1) =~= v@.take(i as int).push(v@[i as int]));
        }
        out.push('\\');
        out.push(v[i]);
        i += 1;
        assert(out@ =~= old(out)@ + escaped(v@.take(i as int)));
    }
    assert(v@.take(v.len() as int) =~= v@);
}

impl View for Expression {
    type V = Expr;

    open spec fn view(&self) -> Expr {
        self.tree()
    }
}

/// The names of a vector of strings.
pub open spec fn names_of(v: Seq<String>) -> Seq<Seq<char>> {
    v.map_values(|s: String| s@)
}

impl Expression {
    /// Parses a query. White space alone gives no expression; anything
    /// else must be one expression from its first character to its last.
    pub fn parse(query: &str) -> (r: Result<Option<Expression>, Error>)
        ensures
            match r {
                Ok(None) => parser::is_blank(query@),
                Ok(Some(e)) => !parser::is_blank(query@) && parser::parsed(query@) == Some(e@),
                Err(e) => !parser::is_blank(query@) && parser::parsed(query@) is None && (
                e matches Error::QueryParsingError(q) && q@ == query@),
            },
    {
        let chars = chars_of(query);
        if parser::parse_whitespace(&chars) {
            return Ok(None);
        }
        match parser::parse_expr(&chars) {
            Some(e) => Ok(Some(e)),
            None => Err(Error::QueryParsingError(query.to_owned())),
        }
    }

    pub fn tag_names(&self) -> (names: Vec<String>)
        ensures
            names_of(names@) == self@.tag_names(),
    {
        let mut names: Vec<String> = Vec::new();
        self.tag_names_rec(&mut names);
        assert(names_of(names@) =~= self@.tag_names());
        names
    }

    /// Appends the tag names of the expression to `names`.
    pub fn tag_names_rec(&self, names: &mut Vec<String>)
        ensures
            names_of(final(names)@) == names_of(old(names)@) + self@.tag_names(),
        decreases self,
    {
        let ghost before = names_of(names@);
        match self {
            Expression::Tag(t) => {
                names.push(t.tag.clone());
                assert(names_of(names@) =~= before + self@.tag_names());
            },
            Expression::Not(n) => n.operand.tag_names_rec(names),
            Expression::And(a) => {
                a.left.tag_names_rec(names);
                a.right.tag_names_rec(names);
                assert(names_of(names@) =~= before + self@.tag_names());
            },
            Expression::Or(o) => {
                o.left.tag_names_rec(names);
                o.right.tag_names_rec(names);
                assert(names_of(names@) =~= before + self@.tag_names());
            },
            Expression::Comparison(c) => {
                names.push(c.tag.clone());
                assert(names_of(names@) =~= before + self@.tag_names());
            },
        }
    }

    pub fn exact_value_names(&self) -> (names: Vec<String>)
        ensures
            names_of(names@) == self@.exact_value_names(),
    {
        let mut names: Vec<String> = Vec::new();
        self.exact_value_names_rec(&mut names);
        assert(names_of(names@) =~= self@.exact_value_names());
        names
    }

    /// Appends the value names that stand under `=` or `!=` to `names`.
    pub fn exact_value_names_rec(&self, names: &mut Vec<String>)
        ensures
            names_of(final(names)@) == names_of(old(names)@) + self@.exact_value_names(),
        decreases self,
    {
        let ghost before = names_of(names@);
        match self {
            Expression::Tag(_) => {
                assert(names_of(names@) =~= before + self@.exact_value_names());
            },
            Expression::Not(n) => n.operand.exact_value_names_rec(names),
            Expression::And(a) => {
                a.left.exact_value_names_rec(names);
                a.right.exact_value_names_rec(names);
                assert(names_of(names@) =~= before + self@.exact_value_names());
            },
            Expression::Or(o) => {
                o.left.exact_value_names_rec(names);
                o.right.exact_value_names_rec(names);
                assert(names_of(names@) =~= before + self@.exact_value_names());
            },
            Expression::Comparison(c) => {
                match c.operator {
                    Operator::Equal | Operator::Different => {
                        names.push(c.value.clone());
                    },
                    _ => {},
                }
                assert(names_of(names@) =~= before + self@.exact_value_names());
            },
        }
    }

    /// The expression as the text of a query.
    pub fn render(&self) -> (r: String)
        ensures
            r@ == self@.rendering(),
    {
        let mut out: Vec<char> = Vec::new();
        self.render_into(&mut out);
        let r = string_of(&out, 0, out.len());
        assert(r@ =~= self@.rendering());
        r
    }

    /// Appends the text of the expression to `out`.
    pub fn render_into(&self, out: &mut Vec<char>)
        ensures
            final(out)@ == old(out)@ + self@.rendering(),
        decreases self,
    {
        match self {
            Expression::Tag(t) => push_escaped(out, t.tag.as_str()),
            Expression::Comparison(c) => {
                push_escaped(out, c.tag.as_str());
                match c.operator {
                    Operator::Equal => {
                        out.push('=');
                        out.push('=');
                    },
                    Operator::Different => {
                        out.push('!');
                        out.push('=');
                    },
                    Operator::LessThan => out.push('<'),
                    Operator::LessThanOrEqual => {
                        out.push('<');
                        out.push('=');
                    },
                    Operator::MoreThan => out.push('>'),
                    Operator::MoreThanOrEqual => {
                        out.push('>');
                        out.push('=');
                    },
                }
                assert(out@ =~= old(out)@ + escaped(c.tag@) + sign_text(c.operator));
                push_escaped(out, c.value.as_str());
                assert(out@ =~= old(out)@ + self@.rendering());
            },
            Expression::Not(n) => {
                out.push('n');
                out.push('o');
                out.push('t');
                out.push('(');
                n.operand.render_into(out);
                out.push(')');
                assert(out@ =~= old(out)@ + self@.rendering());
            },
            Expression::And(a) => {
                out.push('(');
                a.left.render_into(out);
                out.push(')');
                out.push('a');
                out.push('n');
                out.push('d');
                out.push('(');
                a.right.render_into(out);
                out.push(')');
                assert(out@ =~= old(out)@ + self@.rendering());
            },
            Expression::Or(o) => {
                out.push('(');
                o.left.render_into(out);
                out.push(')');
                out.push('o');
                out.push('r');
                out.push('(');
                o.right.render_into(out);
                out.push(')');
                assert(out@ =~= old(out)@ + self@.rendering());
            },
        }
    }

    /// The values that stand in comparisons, from left to right.
    pub fn compared_values(&self) -> (names: Vec<String>)
        ensures
            names_of(names@) == self@.compared_values(),
    {
        let mut names: Vec<String> = Vec::new();
        self.compared_values_rec(&mut names);
        assert(names_of(names@) =~= self@.compared_values());
        names
    }

    /// Appends the values that stand in comparisons to `names`.
    pub fn compared_values_rec(&self, names: &mut Vec<String>)
        ensures
            names_of(final(names)@) == names_of(old(names)@) + self@.compared_values(),
        decreases self,
    {
        let ghost before = names_of(names@);
        match self {
            Expression::Tag(_) => {
                assert(names_of(names@) =~= before + self@.compared_values());
            },
            Expression::Not(n) => n.operand.compared_values_rec(names),
            Expression::And(a) => {
                a.left.compared_values_rec(names);
                a.right.compared_values_rec(names);
                assert(names_of(names@) =~= before + self@.compared_values());
            },
            Expression::Or(o) => {
                o.left.compared_values_rec(names);
                o.right.compared_values_rec(names);
                assert(names_of(names@) =~= before + self@.compared_values());
            },
            Expression::Comparison(c) => {
                names.push(c.value.clone());
                assert(names_of(names@) =~= before + self@.compared_values());
            },
        }
    }
}

} // verus!
