use tmsu::errors::Error;
use tmsu::query::parser;
use tmsu::query::{
    AndExpression, ComparisonExpression, Expression, NotExpression, Operator, OrExpression,
    TagExpression,
};

fn chars(s: &str) -> Vec<char> {
    s.chars().collect()
}

fn make_tag(name: &str) -> Expression {
    Expression::Tag(TagExpression {
        tag: name.to_owned(),
    })
}

fn make_not(expr: Expression) -> Expression {
    Expression::Not(NotExpression {
        operand: Box::new(expr),
    })
}

fn make_and(left: Expression, right: Expression) -> Expression {
    Expression::And(AndExpression {
        left: Box::new(left),
        right: Box::new(right),
    })
}

fn make_or(left: Expression, right: Expression) -> Expression {
    Expression::Or(OrExpression {
        left: Box::new(left),
        right: Box::new(right),
    })
}

fn make_comparison(tag_name: &str, op: &str, value_name: &str) -> Expression {
    let operator = match op {
        "eq" | "EQ" | "=" | "==" => Operator::Equal,
        "ne" | "NE" | "!=" => Operator::Different,
        "lt" | "LT" | "<" => Operator::LessThan,
        "le" | "LE" | "<=" => Operator::LessThanOrEqual,
        "gt" | "GT" | ">" => Operator::MoreThan,
        "ge" | "GE" | ">=" => Operator::MoreThanOrEqual,
        _ => panic!("Unknown operator: '{}'", op),
    };

    Expression::Comparison(ComparisonExpression {
        tag: tag_name.to_owned(),
        operator,
        value: value_name.to_owned(),
    })
}

fn tag_name(input: &str) -> Option<(Expression, usize)> {
    parser::tag_name(&chars(input), 0)
}

fn comparison_expr(input: &str) -> Option<(Expression, usize)> {
    parser::comparison_expr(&chars(input), 0)
}

fn not_expr(input: &str) -> Option<(Expression, usize)> {
    parser::not_expr(&chars(input), 0)
}

fn and_expr(input: &str) -> Option<(Expression, usize)> {
    parser::and_expr(&chars(input), 0)
}

fn or_expr(input: &str) -> Option<(Expression, usize)> {
    parser::or_expr(&chars(input), 0)
}

fn full_expr(input: &str) -> Option<(Expression, usize)> {
    parser::full_expr(&chars(input), 0)
}

fn parse_expr(input: &str) -> Option<Expression> {
    parser::parse_expr(&chars(input))
}

fn assert_parse(
    parsing_func: fn(&str) -> Option<(Expression, usize)>,
    to_parse: &str,
    expected_expr: &Expression,
) {
    match parsing_func(to_parse) {
        Some((expr, _)) => assert_eq!(&expr, expected_expr, "\nexpr: [{}]", to_parse),
        None => panic!("Parsing failed for [{}]", to_parse),
    }
}

fn assert_parse_tag(input: &str, expected: &str) {
    assert_parse(tag_name, input, &make_tag(expected));
}

fn assert_parse_comp(input: &str, t: &str, op: &str, v: &str) {
    assert_parse(comparison_expr, input, &make_comparison(t, op, v));
}

fn assert_parse_not(input: &str, expected: &str) {
    assert_parse(not_expr, input, &make_not(make_tag(expected)));
}

fn assert_parse_and(input: &str, exp_left: Expression, exp_right: Expression) {
    assert_parse(and_expr, input, &make_and(exp_left, exp_right));
}

fn assert_parse_or(input: &str, exp_left: Expression, exp_right: Expression) {
    assert_parse(or_expr, input, &make_or(exp_left, exp_right));
}

#[test]
fn expr_parse() {
    // Empty expressions
    assert_eq!(Expression::parse("").unwrap(), None);
    assert_eq!(Expression::parse("  \t \r\n ").unwrap(), None);

    let expr = Expression::parse("  hello  ").unwrap();
    assert_eq!(
        expr,
        Some(Expression::Tag(TagExpression {
            tag: "hello".to_owned()
        }))
    );
}

#[test]
fn expr_tag_names() {
    let expr = Expression::parse("not (not b) (a) or c = 2 or d == 3 or e != 4 or f > 5")
        .unwrap()
        .unwrap();

    let mut actual_names = expr.tag_names();
    actual_names.sort();

    assert_eq!(actual_names, vec!["a", "b", "c", "d", "e", "f"]);
}

#[test]
fn expr_exact_value_names() {
    let expr = Expression::parse("not (not b) (a) or c = 2 or d == 3 or e != 4 or f > 5")
        .unwrap()
        .unwrap();

    let mut actual_names = expr.exact_value_names();
    actual_names.sort();

    assert_eq!(actual_names, vec!["2", "3", "4"]);
}

#[test]
fn can_parse_tag_name() {
    assert_parse_tag("aBc", "aBc");

    // Whitespace
    assert_parse_tag("a b c", "a");
    assert!(tag_name(" abc").is_none());
    assert_parse_tag(r"a\ b\ c", "a b c");
    assert_parse_tag("a\t", "a");
    assert_parse_tag("a\\\t", "a\t");
    assert_parse_tag("a\r", "a");
    assert_parse_tag("a\\\r", "a\r");
    assert_parse_tag("a\n", "a");
    assert_parse_tag("a\\\n", "a\n");

    // Special chars
    assert_parse_tag(r"abc(def)g", "abc");
    assert_parse_tag(r"abc\(def)g", "abc(def");
    assert_parse_tag(r"abc\(def\)g", "abc(def)g");
    assert_parse_tag(r"a<=2", "a");
    assert_parse_tag(r"a\<=2", "a<");
    assert_parse_tag(r"a\<\=2", "a<=2");

    // Keywords
    assert!(tag_name("not").is_none());
    assert!(tag_name("NOT  ").is_none());
    assert_parse_tag("NoT", "NoT");
    assert!(tag_name("and").is_none());
    assert!(tag_name("or").is_none());
    assert!(tag_name("eq").is_none());
    assert!(tag_name("ne").is_none());
    assert!(tag_name("lt").is_none());
    assert!(tag_name("le").is_none());
    assert!(tag_name("gt").is_none());
    assert!(tag_name("ge").is_none());
    assert_parse_tag(r"\or", "or");
    assert_parse_tag(r"o\r", "or");

    // Other
    assert!(tag_name("").is_none());
    assert!(tag_name(r"\").is_none());
    assert_parse_tag(r"\\\\", r"\\");
    assert_parse_tag(r"€ñอั喂", "€ñอั喂");
    assert_parse_tag("a b and c or not d e", "a");
}

#[test]
fn can_parse_comparison_expr() {
    // Equality symbol
    assert_parse_comp("a = 1", "a", "=", "1");
    assert_parse_comp("a   =  1", "a", "=", "1");
    assert_parse_comp("a=1", "a", "=", "1");
    assert_parse_comp("a==1", "a", "==", "1");
    assert_parse_comp(r"a=\=1", "a", "=", "=1");
    assert!(comparison_expr("a = =1").is_none());

    // Other symbols
    assert_parse_comp("a != 1", "a", "!=", "1");
    assert_parse_comp("a < 1", "a", "<", "1");
    assert_parse_comp("a <= 1", "a", "<=", "1");
    assert_parse_comp("a > 1", "a", ">", "1");
    assert_parse_comp("a >= 1", "a", ">=", "1");

    // Text
    assert_parse_comp("a eq 1", "a", "eq", "1");
    assert!(comparison_expr("a eq1").is_none());
    assert!(comparison_expr(r"a eq\1").is_none());
    assert!(comparison_expr(r"a\ eq1").is_none());
    assert_parse_comp("a ne 1", "a", "ne", "1");
    assert_parse_comp("a lt 1", "a", "lt", "1");
    assert_parse_comp("a le 1", "a", "le", "1");
    assert_parse_comp("a gt 1", "a", "gt", "1");
    assert_parse_comp("a ge 1", "a", "ge", "1");

    // Other
    assert!(comparison_expr("a << 1").is_none());
    assert!(comparison_expr("a <> 1").is_none());
    assert!(comparison_expr("a =! 1").is_none());
}

#[test]
fn can_parse_not_expr() {
    // With keyword
    assert_parse_not("not foo", "foo");
    assert_parse_not("NOT   FoO ", "FoO");
    assert_parse_not("not(foo)", "foo");
    assert_parse_not("not ( (( foo)  ))", "foo");
    assert!(not_expr(r"\not foo").is_none());
    assert!(not_expr("not (a not) b").is_none());
    assert!(not_expr("not or").is_none());

    // With other expression
    assert_parse(
        not_expr,
        "not a > 1",
        &make_not(make_comparison("a", ">", "1")),
    );
    assert_parse(
        not_expr,
        "not (a > 1)",
        &make_not(make_comparison("a", ">", "1")),
    );
    assert_parse(
        not_expr,
        "not (a or b)",
        &make_not(make_or(make_tag("a"), make_tag("b"))),
    );
}

fn a_and_b_and_c() -> Expression {
    make_and(make_tag("a"), make_and(make_tag("b"), make_tag("c")))
}

#[test]
fn can_parse_and_expr() {
    // a and (b and c)
    assert_parse(and_expr, "a and b and c", &a_and_b_and_c());
    assert_parse(and_expr, "a and b c", &a_and_b_and_c());
    assert_parse(and_expr, "a b and c", &a_and_b_and_c());
    assert_parse(and_expr, "a b c", &a_and_b_and_c());
    assert_parse(and_expr, "a (b and c)", &a_and_b_and_c());
    assert_parse(and_expr, "a and (b c)", &a_and_b_and_c());
    assert_parse(and_expr, "(( a )and(b ) c)", &a_and_b_and_c());
    assert_parse(and_expr, "(a)b(c)", &a_and_b_and_c());
    assert_parse(and_expr, "((a)((b))c)", &a_and_b_and_c());

    // Other tests
    assert_parse_and("a andb", make_tag("a"), make_tag("andb"));
    assert_parse_and(
        "a>1 b<2",
        make_comparison("a", ">", "1"),
        make_comparison("b", "<", "2"),
    );
    assert_parse_and(
        "1 + 2 = 3",
        make_tag("1"),
        make_and(make_tag("+"), make_comparison("2", "=", "3")),
    );
    assert_parse_and(
        "not a not b",
        make_not(make_tag("a")),
        make_not(make_tag("b")),
    );
    assert_parse_and(
        "( a or b ) and c",
        make_or(make_tag("a"), make_tag("b")),
        make_tag("c"),
    );
    // && is just a regular keyword
    assert_parse_and(
        "a && b",
        make_tag("a"),
        make_and(make_tag("&&"), make_tag("b")),
    );
}

#[test]
fn can_parse_or_expr() {
    assert_parse_or("(( a )or(b))", make_tag("a"), make_tag("b"));
    assert_parse_or("not a or b", make_not(make_tag("a")), make_tag("b"));
    assert_parse_or(
        "a>b or(b!=1)",
        make_comparison("a", ">", "b"),
        make_comparison("b", "!=", "1"),
    );
    assert_parse_or(
        "a b or c and d",
        make_and(make_tag("a"), make_tag("b")),
        make_and(make_tag("c"), make_tag("d")),
    );
    assert_parse_or(
        "a>=a or(b b )",
        make_comparison("a", ">=", "a"),
        make_and(make_tag("b"), make_tag("b")),
    );

    assert_parse(or_expr, "a and b", &make_and(make_tag("a"), make_tag("b")));
    assert_parse(or_expr, "a orb", &make_and(make_tag("a"), make_tag("orb")));
}

#[test]
fn can_parse_full_expr() {
    assert_parse(full_expr, r" \<foo/\> ", &make_tag("<foo/>"));
    assert_parse(
        full_expr,
        r"   (&<#\!)    ",
        &make_comparison("&", "<", "#!"),
    );
    assert_parse(full_expr, " a or a", &make_or(make_tag("a"), make_tag("a")));

    // Garbage at the end: accepted by full_expr() but not by parse_expr()
    assert_parse(full_expr, " a = ", &make_tag("a"));
    assert!(parse_expr(" a = ").is_none());
    assert_parse(full_expr, "a and ()", &make_tag("a"));
    assert!(parse_expr("a and ()").is_none());

    // Other errors
    assert!(full_expr("").is_none());
    assert!(full_expr("()").is_none());
}

#[test]
fn test_parse_whitespace() {
    assert!(parser::parse_whitespace(&chars("")));
    assert!(parser::parse_whitespace(&chars(" \n\t\r    ")));
    assert!(!parser::parse_whitespace(&chars("     r")));
}

#[test]
fn or_folds_to_the_right() {
    assert_eq!(
        parse_expr("a or b or c"),
        Some(make_or(
            make_tag("a"),
            make_or(make_tag("b"), make_tag("c"))
        ))
    );
}

#[test]
fn trailing_text_is_an_error() {
    assert_eq!(
        Expression::parse("a )"),
        Err(Error::QueryParsingError("a )".to_owned()))
    );
}

#[test]
fn lone_backslash_at_the_end_is_dropped() {
    assert_eq!(parse_expr("abc\\"), Some(make_tag("abc")));
    assert_eq!(parse_expr("or\\"), Some(make_tag("or")));
}

#[test]
fn keywords_need_one_case_throughout() {
    assert_eq!(
        parse_expr("a AND b"),
        Some(make_and(make_tag("a"), make_tag("b")))
    );
    assert_eq!(
        parse_expr("a And b"),
        Some(make_and(
            make_tag("a"),
            make_and(make_tag("And"), make_tag("b"))
        ))
    );
    assert_eq!(
        parse_expr("a EQ 1"),
        Some(make_comparison("a", "==", "1"))
    );
    assert_eq!(parse_expr("NOT a"), Some(make_not(make_tag("a"))));
}

fn assert_round_trip(expr: Expression, text: &str) {
    let written = expr.render();
    assert_eq!(written, text);
    assert_eq!(Expression::parse(&written), Ok(Some(expr)));
}

#[test]
fn a_written_expression_parses_to_itself() {
    assert_round_trip(make_tag("a b"), "\\a\\ \\b");
    assert_round_trip(make_tag("or"), "\\o\\r");
    assert_round_trip(make_comparison("size", "<=", "1 0"), "\\s\\i\\z\\e<=\\1\\ \\0");
    assert_round_trip(make_not(make_tag("x")), "not(\\x)");
    assert_round_trip(
        make_and(make_and(make_tag("a"), make_tag("b")), make_tag("c")),
        "((\\a)and(\\b))and(\\c)",
    );
    assert_round_trip(
        make_or(
            make_tag("a"),
            make_not(make_or(make_comparison("b", "!=", "("), make_tag("=")),
            ),
        ),
        "(\\a)or(not((\\b!=\\()or(\\=)))",
    );
}

#[test]
fn compared_values_are_listed_in_their_order() {
    let expr = Expression::parse("a = 1 and not b < 2 or c").unwrap().unwrap();
    assert_eq!(expr.compared_values(), vec!["1", "2"]);
}
