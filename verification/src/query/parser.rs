//! The grammar of queries, as functions on a sequence of characters and a
//! position in it.
//!
//! ```text
//! Full    := WS Or WS
//! Or      := And (WS "or" WS And)*
//! And     := Operand (WS ("and" WS)? Operand)*
//! Operand := Parens | Not | Comparison | TagName
//! Parens  := "(" Full ")"
//! Not     := "not" (WS Parens | WS+ Comparison | WS+ TagName)
//! Compar  := TagName Op TagName
//! TagName := (Escaped | plain character)+
//! ```
//!
//! `and` and `or` fold to the right. A keyword counts as one only all in
//! lower or all in upper case and right before white space or a
//! parenthesis.

use vstd::prelude::*;
use crate::query::{
    AndExpression, ComparisonExpression, Expr, Expression, NotExpression, Operator, OrExpression,
    TagExpression,
};
use crate::text::string_of;

verus! {

/// Whether a character has the Unicode property White_Space.
pub uninterp spec fn is_white(c: char) -> bool;

/// `char::is_whitespace` tells whether a character has the Unicode
/// property White_Space; the contract gives that answer the name `is_white`.
pub assume_specification[ char::is_whitespace ](c: char) -> (r: bool)
    ensures
        r == is_white(c),
;

/// A letter of the Latin alphabet without marks.
pub open spec fn is_letter(c: char) -> bool {
    ('a' as u32 <= c as u32 && c as u32 <= 'z' as u32) || ('A' as u32 <= c as u32 && c as u32
        <= 'Z' as u32)
}

/// White space between the parts of a query: a character with the
/// property White_Space. The characters that the grammar itself is
/// written in, its signs and letters, never count as white space.
pub open spec fn is_space(c: char) -> bool {
    is_white(c) && !is_special(c) && !is_letter(c)
}

/// A space or a tab.
pub open spec fn is_blank_char(c: char) -> bool {
    c == ' ' || c == '\t'
}

/// A character that ends a name unless a backslash stands before it.
pub open spec fn is_special(c: char) -> bool {
    c == '\\' || c == '(' || c == ')' || c == '!' || c == '=' || c == '<' || c == '>'
}

/// The first position from `p` on that holds no white space.
pub open spec fn skip_white(s: Seq<char>, p: int) -> int
    decreases s.len() - p,
{
    if 0 <= p < s.len() && is_space(s[p]) {
        skip_white(s, p + 1)
    } else {
        p
    }
}

/// The first position from `p` on that holds neither space nor tab.
pub open spec fn skip_blank(s: Seq<char>, p: int) -> int
    decreases s.len() - p,
{
    if 0 <= p < s.len() && is_blank_char(s[p]) {
        skip_blank(s, p + 1)
    } else {
        p
    }
}

/// Whether `w` stands in `s` at position `p`.
pub open spec fn has_word(s: Seq<char>, p: int, w: Seq<char>) -> bool {
    0 <= p && p + w.len() <= s.len() && s.subrange(p, p + w.len()) == w
}

/// Whether a keyword, given in lower and in upper case, stands at `p`
/// right before white space or a parenthesis.
pub open spec fn keyword_at(s: Seq<char>, p: int, lower: Seq<char>, upper: Seq<char>) -> bool {
    &&& lower.len() == upper.len()
    &&& has_word(s, p, lower) || has_word(s, p, upper)
    &&& p + lower.len() < s.len()
    &&& {
        let c = s[p + lower.len()];
        is_space(c) || c == '(' || c == ')'
    }
}

/// The characters of the name that starts at `p`, escapes resolved.
pub open spec fn name_chars(s: Seq<char>, p: int) -> Seq<char>
    decreases s.len() - p,
{
    if p < 0 || p >= s.len() {
        seq![]
    } else if s[p] == '\\' {
        if p + 1 < s.len() {
            seq![s[p + 1]] + name_chars(s, p + 2)
        } else {
            seq![]
        }
    } else if is_special(s[p]) || is_space(s[p]) {
        seq![]
    } else {
        seq![s[p]] + name_chars(s, p + 1)
    }
}

/// The position behind the name that starts at `p`. A backslash takes
/// the character behind it along; a backslash that ends the input is
/// passed over.
pub open spec fn name_end(s: Seq<char>, p: int) -> int
    decreases s.len() - p,
{
    if p < 0 || p >= s.len() {
        p
    } else if s[p] == '\\' {
        if p + 1 < s.len() {
            name_end(s, p + 2)
        } else {
            p + 1
        }
    } else if is_special(s[p]) || is_space(s[p]) {
        p
    } else {
        name_end(s, p + 1)
    }
}

/// The words that no name may be when written without a backslash.
pub open spec fn is_reserved(w: Seq<char>) -> bool {
    crate::entities::is_logical_keyword(w) || crate::entities::is_comparison_keyword(w)
}

/// The name at `p` and the position behind it. There is none where no
/// character can be taken, nor where a reserved word stands as it is.
pub open spec fn name_at(s: Seq<char>, p: int) -> Option<(Seq<char>, int)> {
    let name = name_chars(s, p);
    let end = name_end(s, p);
    if name.len() == 0 {
        None
    } else if is_reserved(name) && end - p == name.len() {
        None
    } else {
        Some((name, end))
    }
}

/// The comparison sign at `p` and its length; of two that fit, the
/// longer.
pub open spec fn symbol_at(s: Seq<char>, p: int) -> Option<(Operator, int)> {
    if has_word(s, p, seq!['=', '=']) {
        Some((Operator::Equal, 2))
    } else if has_word(s, p, seq!['=']) {
        Some((Operator::Equal, 1))
    } else if has_word(s, p, seq!['!', '=']) {
        Some((Operator::Different, 2))
    } else if has_word(s, p, seq!['<', '=']) {
        Some((Operator::LessThanOrEqual, 2))
    } else if has_word(s, p, seq!['<']) {
        Some((Operator::LessThan, 1))
    } else if has_word(s, p, seq!['>', '=']) {
        Some((Operator::MoreThanOrEqual, 2))
    } else if has_word(s, p, seq!['>']) {
        Some((Operator::MoreThan, 1))
    } else {
        None
    }
}

/// The comparison word at `p`.
pub open spec fn word_op_at(s: Seq<char>, p: int) -> Option<Operator> {
    if keyword_at(s, p, seq!['e', 'q'], seq!['E', 'Q']) {
        Some(Operator::Equal)
    } else if keyword_at(s, p, seq!['n', 'e'], seq!['N', 'E']) {
        Some(Operator::Different)
    } else if keyword_at(s, p, seq!['l', 't'], seq!['L', 'T']) {
        Some(Operator::LessThan)
    } else if keyword_at(s, p, seq!['l', 'e'], seq!['L', 'E']) {
        Some(Operator::LessThanOrEqual)
    } else if keyword_at(s, p, seq!['g', 't'], seq!['G', 'T']) {
        Some(Operator::MoreThan)
    } else if keyword_at(s, p, seq!['g', 'e'], seq!['G', 'E']) {
        Some(Operator::MoreThanOrEqual)
    } else {
        None
    }
}

/// The operator that starts at `p` and the position behind it. A sign
/// may have spaces and tabs on either side; a word must have them on both.
pub open spec fn operator_at(s: Seq<char>, p: int) -> Option<(Operator, int)> {
    let a = skip_blank(s, p);
    match symbol_at(s, a) {
        Some((op, n)) => Some((op, skip_blank(s, a + n))),
        None => if a > p {
            match word_op_at(s, a) {
                Some(op) => {
                    let b = skip_blank(s, a + 2);
                    if b > a + 2 {
                        Some((op, b))
                    } else {
                        None
                    }
                },
                None => None,
            }
        } else {
            None
        },
    }
}

/// The comparison at `p`: a name, an operator, a name.
pub open spec fn comparison_at(s: Seq<char>, p: int) -> Option<(Expr, int)> {
    match name_at(s, p) {
        Some((tag, a)) => match operator_at(s, a) {
            Some((op, b)) => match name_at(s, b) {
                Some((value, c)) => Some((Expr::Comparison(tag, op, value), c)),
                None => None,
            },
            None => None,
        },
        None => None,
    }
}

/// The name at `p` as an expression.
pub open spec fn tag_at(s: Seq<char>, p: int) -> Option<(Expr, int)> {
    match name_at(s, p) {
        Some((tag, a)) => Some((Expr::Tag(tag), a)),
        None => None,
    }
}

/// The position behind what may stand between two operands of `and`:
/// white space, then perhaps the keyword and more white space.
pub open spec fn and_gap(s: Seq<char>, p: int) -> int {
    let a = skip_white(s, p);
    if keyword_at(s, a, seq!['a', 'n', 'd'], seq!['A', 'N', 'D']) {
        skip_white(s, a + 3)
    } else {
        a
    }
}

/// The position behind `or` with the white space around it, where it
/// stands at `p`.
pub open spec fn or_gap(s: Seq<char>, p: int) -> Option<int> {
    let a = skip_white(s, p);
    if keyword_at(s, a, seq!['o', 'r'], seq!['O', 'R']) {
        Some(skip_white(s, a + 2))
    } else {
        None
    }
}

/// An expression between white space.
pub open spec fn full_at(s: Seq<char>, p: int) -> Option<(Expr, int)>
    decreases s.len() - p, 5nat,
{
    let a = skip_white(s, p);
    if a < p || a > s.len() {
        None
    } else {
        match or_at(s, a) {
            Some((e, q)) => Some((e, skip_white(s, q))),
            None => None,
        }
    }
}

/// One or more conjunctions with `or` between them, folded to the right.
pub open spec fn or_at(s: Seq<char>, p: int) -> Option<(Expr, int)>
    decreases s.len() - p, 4nat,
{
    match and_at(s, p) {
        Some((left, q)) => match or_gap(s, q) {
            Some(a) => if p < a <= s.len() {
                match or_at(s, a) {
                    Some((right, r)) => Some((Expr::Or(Box::new(left), Box::new(right)), r)),
                    None => Some((left, q)),
                }
            } else {
                Some((left, q))
            },
            None => Some((left, q)),
        },
        None => None,
    }
}

/// One or more operands, with or without `and` between them, folded to
/// the right.
pub open spec fn and_at(s: Seq<char>, p: int) -> Option<(Expr, int)>
    decreases s.len() - p, 3nat,
{
    match operand_at(s, p) {
        Some((left, q)) => {
            let a = and_gap(s, q);
            if p < a <= s.len() {
                match and_at(s, a) {
                    Some((right, r)) => Some((Expr::And(Box::new(left), Box::new(right)), r)),
                    None => Some((left, q)),
                }
            } else {
                Some((left, q))
            }
        },
        None => None,
    }
}

/// The first that fits of: an expression in parentheses, a negation, a
/// comparison, a name.
pub open spec fn operand_at(s: Seq<char>, p: int) -> Option<(Expr, int)>
    decreases s.len() - p, 2nat,
{
    match parens_at(s, p) {
        Some(r) => Some(r),
        None => match not_at(s, p) {
            Some(r) => Some(r),
            None => match comparison_at(s, p) {
                Some(r) => Some(r),
                None => tag_at(s, p),
            },
        },
    }
}

/// What `not` may be said of, behind the keyword that ends at `p`: an
/// expression in parentheses, or, behind white space, a comparison or a name.
pub open spec fn not_operand_at(s: Seq<char>, p: int, lo: int) -> Option<(Expr, int)>
    decreases s.len() - lo, 0nat,
{
    let a = skip_white(s, p);
    if a < p || p <= lo || a > s.len() {
        None
    } else {
        match parens_at(s, a) {
            Some(r) => Some(r),
            None => if a > p {
                match comparison_at(s, a) {
                    Some(r) => Some(r),
                    None => tag_at(s, a),
                }
            } else {
                None
            },
        }
    }
}

/// A negation: the keyword `not` and its operand.
pub open spec fn not_at(s: Seq<char>, p: int) -> Option<(Expr, int)>
    decreases s.len() - p, 1nat,
{
    if keyword_at(s, p, seq!['n', 'o', 't'], seq!['N', 'O', 'T']) {
        match not_operand_at(s, p + 3, p) {
            Some((e, q)) => Some((Expr::Not(Box::new(e)), q)),
            None => None,
        }
    } else {
        None
    }
}

/// An expression in parentheses.
pub open spec fn parens_at(s: Seq<char>, p: int) -> Option<(Expr, int)>
    decreases s.len() - p, 0nat,
{
    if 0 <= p < s.len() && s[p] == '(' {
        match full_at(s, p + 1) {
            Some((e, q)) => if 0 <= q < s.len() && s[q] == ')' {
                Some((e, q + 1))
            } else {
                None
            },
            None => None,
        }
    } else {
        None
    }
}

/// Whether the text is white space from end to end.
pub open spec fn is_blank(s: Seq<char>) -> bool {
    skip_white(s, 0) == s.len()
}

/// The expression that the whole text is, if it is one.
pub open spec fn parsed(s: Seq<char>) -> Option<Expr> {
    match full_at(s, 0) {
        Some((e, q)) => if q == s.len() {
            Some(e)
        } else {
            None
        },
        None => None,
    }
}


/// Whether an executable result and a result of the grammar agree.
pub open spec fn agrees(r: Option<(Expression, usize)>, m: Option<(Expr, int)>) -> bool {
    match r {
        Some((e, q)) => m == Some((e@, q as int)),
        None => m is None,
    }
}

/// Whether a result ends behind `p` and inside the text.
pub open spec fn advances(r: Option<(Expression, usize)>, p: usize, len: nat) -> bool {
    r is Some ==> p < (r->0).1 <= len
}

fn skip_white_from(s: &Vec<char>, p: usize) -> (q: usize)
    requires
        p <= s.len(),
    ensures
        q == skip_white(s@, p as int),
        p <= q <= s.len(),
{
    let mut i: usize = p;
    while i < s.len() && is_space_char(s[i])
        invariant
            p <= i <= s.len(),
            skip_white(s@, p as int) == skip_white(s@, i as int),
        decreases s.len() - i,
    {
        i += 1;
    }
    i
}

fn skip_blank_from(s: &Vec<char>, p: usize) -> (q: usize)
    requires
        p <= s.len(),
    ensures
        q == skip_blank(s@, p as int),
        p <= q <= s.len(),
{
    let mut i: usize = p;
    while i < s.len() && (s[i] == ' ' || s[i] == '\t')
        invariant
            p <= i <= s.len(),
            skip_blank(s@, p as int) == skip_blank(s@, i as int),
        decreases s.len() - i,
    {
        i += 1;
    }
    i
}

fn has_two(s: &Vec<char>, p: usize, a: char, b: char) -> (r: bool)
    requires
        p <= s.len(),
    ensures
        r == has_word(s@, p as int, seq![a, b]),
        r ==> p + 2 <= s.len(),
{
    if s.len() - p < 2 {
        return false;
    }
    let r = s[p] == a && s[p + 1] == b;
    proof {
        let w = s@.subrange(p as int, p + 2);
        assert(w[0] == s@[p as int] && w[1] == s@[p + 1]);
        if r {
            assert(w =~= seq![a, b]);
        } else {
            assert(seq![a, b][0] == a && seq![a, b][1] == b);
        }
    }
    r
}

fn has_one(s: &Vec<char>, p: usize, a: char) -> (r: bool)
    requires
        p <= s.len(),
    ensures
        r == has_word(s@, p as int, seq![a]),
        r ==> p + 1 <= s.len(),
{
    if s.len() - p < 1 {
        return false;
    }
    let r = s[p] == a;
    proof {
        let w = s@.subrange(p as int, p + 1);
        assert(w[0] == s@[p as int]);
        if r {
            assert(w =~= seq![a]);
        } else {
            assert(seq![a][0] == a);
        }
    }
    r
}

fn has_three(s: &Vec<char>, p: usize, a: char, b: char, c: char) -> (r: bool)
    requires
        p <= s.len(),
    ensures
        r == has_word(s@, p as int, seq![a, b, c]),
        r ==> p + 3 <= s.len(),
{
    if s.len() - p < 3 {
        return false;
    }
    let r = s[p] == a && s[p + 1] == b && s[p + 2] == c;
    proof {
        let w = s@.subrange(p as int, p + 3);
        assert(w[0] == s@[p as int] && w[1] == s@[p + 1] && w[2] == s@[p + 2]);
        if r {
            assert(w =~= seq![a, b, c]);
        } else {
            assert(seq![a, b, c][0] == a && seq![a, b, c][1] == b && seq![a, b, c][2] == c);
        }
    }
    r
}

/// Whether white space or a parenthesis stands at `p`.
fn ends_keyword(s: &Vec<char>, p: usize) -> (r: bool)
    ensures
        r ==> p < s.len(),
        r == (p < s.len() && (is_space(s@[p as int]) || s@[p as int] == '(' || s@[p as int]
            == ')')),
{
    p < s.len() && (is_space_char(s[p]) || s[p] == '(' || s[p] == ')')
}

fn keyword_two(s: &Vec<char>, p: usize, l0: char, l1: char, u0: char, u1: char) -> (r: bool)
    requires
        p <= s.len(),
    ensures
        r == keyword_at(s@, p as int, seq![l0, l1], seq![u0, u1]),
        r ==> p + 2 < s.len(),
{
    if has_two(s, p, l0, l1) || has_two(s, p, u0, u1) {
        ends_keyword(s, p + 2)
    } else {
        false
    }
}

fn keyword_three(
    s: &Vec<char>,
    p: usize,
    l0: char,
    l1: char,
    l2: char,
    u0: char,
    u1: char,
    u2: char,
) -> (r: bool)
    requires
        p <= s.len(),
    ensures
        r == keyword_at(s@, p as int, seq![l0, l1, l2], seq![u0, u1, u2]),
        r ==> p + 3 < s.len(),
{
    if has_three(s, p, l0, l1, l2) || has_three(s, p, u0, u1, u2) {
        ends_keyword(s, p + 3)
    } else {
        false
    }
}

fn is_special_char(c: char) -> (r: bool)
    ensures
        r == is_special(c),
{
    c == '\\' || c == '(' || c == ')' || c == '!' || c == '=' || c == '<' || c == '>'
}

fn is_space_char(c: char) -> (r: bool)
    ensures
        r == is_space(c),
{
    c.is_whitespace() && !is_special_char(c) && !(('a' as u32 <= c as u32 && c as u32
        <= 'z' as u32) || ('A' as u32 <= c as u32 && c as u32 <= 'Z' as u32))
}

/// Whether the characters are a reserved word.
fn is_reserved_word(w: &Vec<char>) -> (r: bool)
    ensures
        r == is_reserved(w@),
{
    let t = string_of(w, 0, w.len());
    assert(t@ =~= w@);
    let name = t.as_str();
    crate::text::same_text(name, "and") || crate::text::same_text(name, "AND")
        || crate::text::same_text(name, "or") || crate::text::same_text(name, "OR")
        || crate::text::same_text(name, "not") || crate::text::same_text(name, "NOT")
        || crate::text::same_text(name, "eq") || crate::text::same_text(name, "EQ")
        || crate::text::same_text(name, "ne") || crate::text::same_text(name, "NE")
        || crate::text::same_text(name, "lt") || crate::text::same_text(name, "LT")
        || crate::text::same_text(name, "gt") || crate::text::same_text(name, "GT")
        || crate::text::same_text(name, "le") || crate::text::same_text(name, "LE")
        || crate::text::same_text(name, "ge") || crate::text::same_text(name, "GE")
}

/// The name at `p` and the position behind it.
pub fn name_from(s: &Vec<char>, p: usize) -> (r: Option<(String, usize)>)
    requires
        p <= s.len(),
    ensures
        match r {
            Some((name, q)) => name_at(s@, p as int) == Some((name@, q as int)) && p < q
                <= s.len(),
            None => name_at(s@, p as int) is None,
        },
{
    let mut acc: Vec<char> = Vec::new();
    let mut i: usize = p;
    let mut open = true;
    while open && i < s.len()
        invariant
            p <= i <= s.len(),
            name_chars(s@, p as int) == acc@ + name_chars(s@, i as int),
            name_end(s@, p as int) == name_end(s@, i as int),
            !open ==> name_chars(s@, i as int).len() == 0 && name_end(s@, i as int) == i,
            acc@.len() <= i - p,
            acc@.len() > 0 ==> i > p,
        decreases s.len() - i, open as int,
    {
        let c = s[i];
        let ghost before = acc@;
        if c == '\\' {
            if s.len() - i > 1 {
                acc.push(s[i + 1]);
                i += 2;
                assert(before + (seq![s@[i - 1]] + name_chars(s@, i as int)) =~= acc@
                    + name_chars(s@, i as int));
            } else {
                i += 1;
                open = false;
            }
        } else if is_special_char(c) || is_space_char(c) {
            open = false;
        } else {
            acc.push(c);
            i += 1;
            assert(before + (seq![c] + name_chars(s@, i as int)) =~= acc@ + name_chars(
                s@,
                i as int,
            ));
        }
    }
    assert(name_chars(s@, p as int) =~= acc@);
    assert(name_end(s@, p as int) == i);
    if acc.len() == 0 {
        return None;
    }
    if i - p == acc.len() && is_reserved_word(&acc) {
        return None;
    }
    Some((string_of(&acc, 0, acc.len()), i))
}

/// Parses a name at `p` as an expression of one tag.
pub fn tag_name(s: &Vec<char>, p: usize) -> (r: Option<(Expression, usize)>)
    requires
        p <= s.len(),
    ensures
        agrees(r, tag_at(s@, p as int)),
        advances(r, p, s.len() as nat),
{
    match name_from(s, p) {
        Some((name, q)) => Some((Expression::Tag(TagExpression { tag: name }), q)),
        None => None,
    }
}

fn symbol_from(s: &Vec<char>, p: usize) -> (r: Option<(Operator, usize)>)
    requires
        p <= s.len(),
    ensures
        match r {
            Some((op, n)) => symbol_at(s@, p as int) == Some((op, n as int)),
            None => symbol_at(s@, p as int) is None,
        },
        r is Some ==> 1 <= (r->0).1 <= 2 && p + (r->0).1 <= s.len(),
{
    if has_two(s, p, '=', '=') {
        Some((Operator::Equal, 2))
    } else if has_one(s, p, '=') {
        Some((Operator::Equal, 1))
    } else if has_two(s, p, '!', '=') {
        Some((Operator::Different, 2))
    } else if has_two(s, p, '<', '=') {
        Some((Operator::LessThanOrEqual, 2))
    } else if has_one(s, p, '<') {
        Some((Operator::LessThan, 1))
    } else if has_two(s, p, '>', '=') {
        Some((Operator::MoreThanOrEqual, 2))
    } else if has_one(s, p, '>') {
        Some((Operator::MoreThan, 1))
    } else {
        None
    }
}

fn word_op_from(s: &Vec<char>, p: usize) -> (r: Option<Operator>)
    requires
        p <= s.len(),
    ensures
        r == word_op_at(s@, p as int),
        r is Some ==> p + 2 < s.len(),
{
    if keyword_two(s, p, 'e', 'q', 'E', 'Q') {
        Some(Operator::Equal)
    } else if keyword_two(s, p, 'n', 'e', 'N', 'E') {
        Some(Operator::Different)
    } else if keyword_two(s, p, 'l', 't', 'L', 'T') {
        Some(Operator::LessThan)
    } else if keyword_two(s, p, 'l', 'e', 'L', 'E') {
        Some(Operator::LessThanOrEqual)
    } else if keyword_two(s, p, 'g', 't', 'G', 'T') {
        Some(Operator::MoreThan)
    } else if keyword_two(s, p, 'g', 'e', 'G', 'E') {
        Some(Operator::MoreThanOrEqual)
    } else {
        None
    }
}

fn operator_from(s: &Vec<char>, p: usize) -> (r: Option<(Operator, usize)>)
    requires
        p <= s.len(),
    ensures
        match r {
            Some((op, q)) => operator_at(s@, p as int) == Some((op, q as int)) && p < q
                <= s.len(),
            None => operator_at(s@, p as int) is None,
        },
{
    let a = skip_blank_from(s, p);
    match symbol_from(s, a) {
        Some((op, n)) => Some((op, skip_blank_from(s, a + n))),
        None => {
            if a > p {
                match word_op_from(s, a) {
                    Some(op) => {
                        let b = skip_blank_from(s, a + 2);
                        if b > a + 2 {
                            Some((op, b))
                        } else {
                            None
                        }
                    },
                    None => None,
                }
            } else {
                None
            }
        },
    }
}

/// Parses a comparison at `p`.
pub fn comparison_expr(s: &Vec<char>, p: usize) -> (r: Option<(Expression, usize)>)
    requires
        p <= s.len(),
    ensures
        agrees(r, comparison_at(s@, p as int)),
        advances(r, p, s.len() as nat),
{
    let (tag, a) = match name_from(s, p) {
        Some(x) => x,
        None => return None,
    };
    let (operator, b) = match operator_from(s, a) {
        Some(x) => x,
        None => return None,
    };
    let (value, c) = match name_from(s, b) {
        Some(x) => x,
        None => return None,
    };
    Some((Expression::Comparison(ComparisonExpression { tag, operator, value }), c))
}

/// Parses an expression in parentheses at `p`.
pub fn parens_expr(s: &Vec<char>, p: usize) -> (r: Option<(Expression, usize)>)
    requires
        p <= s.len(),
    ensures
        agrees(r, parens_at(s@, p as int)),
        advances(r, p, s.len() as nat),
    decreases s.len() - p, 0nat,
{
    if p < s.len() && s[p] == '(' {
        match full_expr(s, p + 1) {
            Some((e, q)) => {
                if q < s.len() && s[q] == ')' {
                    Some((e, q + 1))
                } else {
                    None
                }
            },
            None => None,
        }
    } else {
        None
    }
}

/// Parses a negation at `p`.
pub fn not_expr(s: &Vec<char>, p: usize) -> (r: Option<(Expression, usize)>)
    requires
        p <= s.len(),
    ensures
        agrees(r, not_at(s@, p as int)),
        advances(r, p, s.len() as nat),
    decreases s.len() - p, 1nat,
{
    if !keyword_three(s, p, 'n', 'o', 't', 'N', 'O', 'T') {
        return None;
    }
    let a = skip_white_from(s, p + 3);
    let found = match parens_expr(s, a) {
        Some(x) => Some(x),
        None => {
            if a > p + 3 {
                match comparison_expr(s, a) {
                    Some(x) => Some(x),
                    None => tag_name(s, a),
                }
            } else {
                None
            }
        },
    };
    match found {
        Some((e, q)) => Some((Expression::Not(NotExpression { operand: Box::new(e) }), q)),
        None => None,
    }
}

fn operand(s: &Vec<char>, p: usize) -> (r: Option<(Expression, usize)>)
    requires
        p <= s.len(),
    ensures
        agrees(r, operand_at(s@, p as int)),
        advances(r, p, s.len() as nat),
    decreases s.len() - p, 2nat,
{
    match parens_expr(s, p) {
        Some(x) => Some(x),
        None => match not_expr(s, p) {
            Some(x) => Some(x),
            None => match comparison_expr(s, p) {
                Some(x) => Some(x),
                None => tag_name(s, p),
            },
        },
    }
}

/// Parses a conjunction at `p`: operands with or without `and` between
/// them.
pub fn and_expr(s: &Vec<char>, p: usize) -> (r: Option<(Expression, usize)>)
    requires
        p <= s.len(),
    ensures
        agrees(r, and_at(s@, p as int)),
        advances(r, p, s.len() as nat),
    decreases s.len() - p, 3nat,
{
    let (left, q) = match operand(s, p) {
        Some(x) => x,
        None => return None,
    };
    let mut a = skip_white_from(s, q);
    if keyword_three(s, a, 'a', 'n', 'd', 'A', 'N', 'D') {
        a = skip_white_from(s, a + 3);
    }
    match and_expr(s, a) {
        Some((right, r)) => Some(
            (Expression::And(AndExpression { left: Box::new(left), right: Box::new(right) }), r),
        ),
        None => Some((left, q)),
    }
}

/// Parses a disjunction at `p`: conjunctions with `or` between them.
pub fn or_expr(s: &Vec<char>, p: usize) -> (r: Option<(Expression, usize)>)
    requires
        p <= s.len(),
    ensures
        agrees(r, or_at(s@, p as int)),
        advances(r, p, s.len() as nat),
    decreases s.len() - p, 4nat,
{
    let (left, q) = match and_expr(s, p) {
        Some(x) => x,
        None => return None,
    };
    let a = skip_white_from(s, q);
    if !keyword_two(s, a, 'o', 'r', 'O', 'R') {
        return Some((left, q));
    }
    let b = skip_white_from(s, a + 2);
    match or_expr(s, b) {
        Some((right, r)) => Some(
            (Expression::Or(OrExpression { left: Box::new(left), right: Box::new(right) }), r),
        ),
        None => Some((left, q)),
    }
}

/// Parses an expression between white space at `p`.
pub fn full_expr(s: &Vec<char>, p: usize) -> (r: Option<(Expression, usize)>)
    requires
        p <= s.len(),
    ensures
        agrees(r, full_at(s@, p as int)),
        advances(r, p, s.len() as nat),
    decreases s.len() - p, 5nat,
{
    let a = skip_white_from(s, p);
    match or_expr(s, a) {
        Some((e, q)) => Some((e, skip_white_from(s, q))),
        None => None,
    }
}

/// Whether the text is white space from end to end.
pub fn parse_whitespace(s: &Vec<char>) -> (r: bool)
    ensures
        r == is_blank(s@),
{
    skip_white_from(s, 0) == s.len()
}

/// Parses the whole text as one expression.
pub fn parse_expr(s: &Vec<char>) -> (r: Option<Expression>)
    ensures
        match r {
            Some(e) => parsed(s@) == Some(e@),
            None => parsed(s@) is None,
        },
{
    match full_expr(s, 0) {
        Some((e, q)) => {
            if q == s.len() {
                Some(e)
            } else {
                None
            }
        },
        None => None,
    }
}

} // verus!
