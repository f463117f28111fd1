//! Writing an expression as a query and parsing that query gives the
//! expression back.

use vstd::prelude::*;
use crate::query::parser::{
    and_at, and_gap, comparison_at, full_at, has_word, is_reserved, is_space, is_special,
    keyword_at, name_at, name_chars, name_end, not_at, not_operand_at, operand_at, operator_at,
    or_at, or_gap, parens_at, parsed, skip_blank, skip_white, symbol_at, tag_at, word_op_at,
};
use crate::query::{escaped, lemma_escaped_len, sign_text, Expr, Operator};

verus! {

/// Whether no name of the expression is empty.
pub open spec fn well_formed(e: Expr) -> bool
    decreases e,
{
    match e {
        Expr::Tag(t) => t.len() > 0,
        Expr::Comparison(t, _, v) => t.len() > 0 && v.len() > 0,
        Expr::Not(x) => well_formed(*x),
        Expr::And(l, r) => well_formed(*l) && well_formed(*r),
        Expr::Or(l, r) => well_formed(*l) && well_formed(*r),
    }
}

/// Whether `w` stands in `s` at `p`, character by character.
pub open spec fn spelled(s: Seq<char>, p: int, w: Seq<char>) -> bool {
    0 <= p && p + w.len() <= s.len() && forall|k: int|
        0 <= k < w.len() ==> #[trigger] s[p + k] == w[k]
}

/// Whether the text ends at `q` or goes on with a closing parenthesis.
pub open spec fn stops(s: Seq<char>, q: int) -> bool {
    q == s.len() || (0 <= q < s.len() && s[q] == ')')
}

proof fn lemma_spelled(s: Seq<char>, p: int, w: Seq<char>)
    requires
        spelled(s, p, w),
    ensures
        has_word(s, p, w),
{
    assert(s.subrange(p, p + w.len()) =~= w) by {
        assert forall|k: int| 0 <= k < w.len() implies s.subrange(p, p + w.len())[k] == w[k] by {
            assert(s[p + k] == w[k]);
        }
    }
}

proof fn lemma_word_starts(s: Seq<char>, p: int, w: Seq<char>)
    requires
        has_word(s, p, w),
        w.len() > 0,
    ensures
        0 <= p < s.len(),
        s[p] == w[0],
{
    assert(s.subrange(p, p + w.len())[0] == s[p]);
}

proof fn lemma_word_second(s: Seq<char>, p: int, w: Seq<char>)
    requires
        has_word(s, p, w),
        w.len() > 1,
    ensures
        p + 1 < s.len(),
        s[p + 1] == w[1],
{
    assert(s.subrange(p, p + w.len())[1] == s[p + 1]);
}

/// A part of a word that stands in a text stands in it too.
proof fn lemma_part(s: Seq<char>, p: int, w: Seq<char>, from: int, part: Seq<char>)
    requires
        spelled(s, p, w),
        0 <= from,
        from + part.len() <= w.len(),
        forall|k: int| 0 <= k < part.len() ==> #[trigger] part[k] == w[from + k],
    ensures
        spelled(s, p + from, part),
{
    assert forall|k: int| 0 <= k < part.len() implies #[trigger] s[p + from + k] == part[k] by {
        assert(s[p + (from + k)] == w[from + k]);
    }
}

/// Where a name ends: at the end of the text, or before a sign or white
/// space that is no backslash.
pub open spec fn name_stops(s: Seq<char>, q: int) -> bool {
    q >= s.len() || (0 <= q && s[q] != '\\' && (is_special(s[q]) || is_space(s[q])))
}

proof fn lemma_scan(s: Seq<char>, p: int, t: Seq<char>)
    requires
        spelled(s, p, escaped(t)),
        name_stops(s, p + 2 * t.len()),
    ensures
        name_chars(s, p) == t,
        name_end(s, p) == p + 2 * t.len(),
    decreases t.len(),
{
    lemma_escaped_len(t);
    if t.len() == 0 {
        assert(name_chars(s, p) =~= t);
    } else {
        let rest = t.drop_first();
        lemma_escaped_len(rest);
        assert(escaped(t) =~= seq!['\\', t[0]] + escaped(rest));
        assert(s[p + 0] == escaped(t)[0]);
        assert(s[p + 1] == escaped(t)[1]);
        assert forall|k: int| 0 <= k < escaped(rest).len() implies #[trigger] escaped(rest)[k]
            == escaped(t)[2 + k] by {}
        lemma_part(s, p, escaped(t), 2, escaped(rest));
        lemma_scan(s, p + 2, rest);
        assert(name_chars(s, p) =~= seq![t[0]] + rest);
        assert(seq![t[0]] + rest =~= t);
    }
}

/// An escaped name is read back as the name.
proof fn lemma_name(s: Seq<char>, p: int, t: Seq<char>)
    requires
        t.len() > 0,
        spelled(s, p, escaped(t)),
        name_stops(s, p + 2 * t.len()),
    ensures
        name_at(s, p) == Some((t, p + 2 * t.len())),
{
    lemma_scan(s, p, t);
}

/// No operand starts where the text stops.
proof fn lemma_no_operand(s: Seq<char>, q: int)
    requires
        0 <= q,
        stops(s, q),
    ensures
        operand_at(s, q) is None,
        and_gap(s, q) == q,
        or_gap(s, q) is None,
        skip_white(s, q) == q,
{
    if has_word(s, q, seq!['n', 'o', 't']) {
        lemma_word_starts(s, q, seq!['n', 'o', 't']);
    }
    if has_word(s, q, seq!['N', 'O', 'T']) {
        lemma_word_starts(s, q, seq!['N', 'O', 'T']);
    }
    if has_word(s, q, seq!['a', 'n', 'd']) {
        lemma_word_starts(s, q, seq!['a', 'n', 'd']);
    }
    if has_word(s, q, seq!['A', 'N', 'D']) {
        lemma_word_starts(s, q, seq!['A', 'N', 'D']);
    }
    if has_word(s, q, seq!['o', 'r']) {
        lemma_word_starts(s, q, seq!['o', 'r']);
    }
    if has_word(s, q, seq!['O', 'R']) {
        lemma_word_starts(s, q, seq!['O', 'R']);
    }
    assert(name_chars(s, q) =~= Seq::<char>::empty());
    assert(name_at(s, q) is None);
    assert(comparison_at(s, q) is None);
    assert(tag_at(s, q) is None);
    assert(parens_at(s, q) is None);
    assert(not_at(s, q) is None);
}

/// An operand that ends where the text stops is a whole conjunction and
/// a whole disjunction.
proof fn lemma_single(s: Seq<char>, p: int, q: int, x: Expr)
    requires
        0 <= p < q <= s.len(),
        operand_at(s, p) == Some((x, q)),
        stops(s, q),
    ensures
        and_at(s, p) == Some((x, q)),
        or_at(s, p) == Some((x, q)),
{
    lemma_no_operand(s, q);
    assert(and_at(s, q) is None);
}

/// No sign of a comparison stands where the text stops.
proof fn lemma_no_operator(s: Seq<char>, q: int)
    requires
        0 <= q,
        stops(s, q),
    ensures
        operator_at(s, q) is None,
{
    assert(skip_blank(s, q) == q);
    if has_word(s, q, seq!['=', '=']) {
        lemma_word_starts(s, q, seq!['=', '=']);
    }
    if has_word(s, q, seq!['=']) {
        lemma_word_starts(s, q, seq!['=']);
    }
    if has_word(s, q, seq!['!', '=']) {
        lemma_word_starts(s, q, seq!['!', '=']);
    }
    if has_word(s, q, seq!['<', '=']) {
        lemma_word_starts(s, q, seq!['<', '=']);
    }
    if has_word(s, q, seq!['<']) {
        lemma_word_starts(s, q, seq!['<']);
    }
    if has_word(s, q, seq!['>', '=']) {
        lemma_word_starts(s, q, seq!['>', '=']);
    }
    if has_word(s, q, seq!['>']) {
        lemma_word_starts(s, q, seq!['>']);
    }
    assert(symbol_at(s, q) is None);
}

/// A sign that stands before a backslash is read as its operator.
proof fn lemma_sign(s: Seq<char>, a: int, op: Operator)
    requires
        spelled(s, a, sign_text(op)),
        a + sign_text(op).len() < s.len(),
        s[a + sign_text(op).len()] == '\\',
    ensures
        operator_at(s, a) == Some((op, a + sign_text(op).len())),
{
    let w = sign_text(op);
    assert(s[a + 0] == w[0]);
    assert(skip_blank(s, a) == a);
    assert(skip_blank(s, a + w.len()) == a + w.len());
    lemma_spelled(s, a, w);
    if w.len() == 2 {
        assert(s[a + 1] == w[1]);
    }
    if has_word(s, a, seq!['=', '=']) {
        lemma_word_starts(s, a, seq!['=', '=']);
        lemma_word_second(s, a, seq!['=', '=']);
    }
    if has_word(s, a, seq!['=']) {
        lemma_word_starts(s, a, seq!['=']);
    }
    if has_word(s, a, seq!['!', '=']) {
        lemma_word_starts(s, a, seq!['!', '=']);
    }
    if has_word(s, a, seq!['<', '=']) {
        lemma_word_starts(s, a, seq!['<', '=']);
        lemma_word_second(s, a, seq!['<', '=']);
    }
    if has_word(s, a, seq!['<']) {
        lemma_word_starts(s, a, seq!['<']);
    }
    if has_word(s, a, seq!['>', '=']) {
        lemma_word_starts(s, a, seq!['>', '=']);
        lemma_word_second(s, a, seq!['>', '=']);
    }
    if has_word(s, a, seq!['>']) {
        lemma_word_starts(s, a, seq!['>']);
    }
    match op {
        Operator::Equal => {
            assert(w =~= seq!['=', '=']);
        },
        Operator::Different => {
            assert(w =~= seq!['!', '=']);
        },
        Operator::LessThan => {
            assert(w =~= seq!['<']);
        },
        Operator::LessThanOrEqual => {
            assert(w =~= seq!['<', '=']);
        },
        Operator::MoreThan => {
            assert(w =~= seq!['>']);
        },
        Operator::MoreThanOrEqual => {
            assert(w =~= seq!['>', '=']);
        },
    }
    assert(symbol_at(s, a) == Some((op, w.len() as int)));
}

/// Where `and` stands before an opening parenthesis, the keyword is
/// read as one.
proof fn lemma_and_word(s: Seq<char>, q: int)
    requires
        0 <= q,
        q + 3 < s.len(),
        s[q] == 'a',
        s[q + 1] == 'n',
        s[q + 2] == 'd',
        s[q + 3] == '(',
    ensures
        and_gap(s, q) == q + 3,
{
    let word = seq!['a', 'n', 'd'];
    assert(spelled(s, q, word)) by {
        assert forall|k: int| 0 <= k < word.len() implies #[trigger] s[q + k] == word[k] by {
            if k == 0 {
                assert(s[q + 0] == 'a');
            } else if k == 1 {
                assert(s[q + 1] == 'n');
            } else {
                assert(s[q + 2] == 'd');
            }
        }
    }
    lemma_spelled(s, q, word);
    assert(skip_white(s, q) == q);
    assert(keyword_at(s, q, seq!['a', 'n', 'd'], seq!['A', 'N', 'D']));
    assert(skip_white(s, q + 3) == q + 3);
}

/// Where `or` stands before an opening parenthesis, no operand starts,
/// and the keyword is read as one.
proof fn lemma_or_word(s: Seq<char>, q: int)
    requires
        0 <= q,
        q + 2 < s.len(),
        s[q] == 'o',
        s[q + 1] == 'r',
        s[q + 2] == '(',
    ensures
        operand_at(s, q) is None,
        and_gap(s, q) == q,
        or_gap(s, q) == Some(q + 2),
{
    let word = seq!['o', 'r'];
    assert(spelled(s, q, word)) by {
        assert forall|k: int| 0 <= k < word.len() implies #[trigger] s[q + k] == word[k] by {
            if k == 0 {
                assert(s[q + 0] == 'o');
            } else {
                assert(s[q + 1] == 'r');
            }
        }
    }
    lemma_spelled(s, q, word);
    assert(skip_white(s, q) == q);
    if has_word(s, q, seq!['a', 'n', 'd']) {
        lemma_word_starts(s, q, seq!['a', 'n', 'd']);
    }
    if has_word(s, q, seq!['A', 'N', 'D']) {
        lemma_word_starts(s, q, seq!['A', 'N', 'D']);
    }
    if has_word(s, q, seq!['n', 'o', 't']) {
        lemma_word_starts(s, q, seq!['n', 'o', 't']);
    }
    if has_word(s, q, seq!['N', 'O', 'T']) {
        lemma_word_starts(s, q, seq!['N', 'O', 'T']);
    }
    assert(and_gap(s, q) == q);
    lemma_or_name(s, q);
    assert(parens_at(s, q) is None);
    assert(not_at(s, q) is None);
    assert(comparison_at(s, q) is None);
    assert(tag_at(s, q) is None);
    assert(keyword_at(s, q, seq!['o', 'r'], seq!['O', 'R']));
    assert(skip_white(s, q + 2) == q + 2);
}

/// The keyword `or` before an opening parenthesis is no name.
proof fn lemma_or_name(s: Seq<char>, q: int)
    requires
        0 <= q,
        q + 2 < s.len(),
        s[q] == 'o',
        s[q + 1] == 'r',
        s[q + 2] == '(',
    ensures
        name_at(s, q) is None,
{
    assert(name_chars(s, q + 2) =~= Seq::<char>::empty());
    assert(name_chars(s, q + 1) =~= seq!['r']);
    assert(name_chars(s, q) =~= seq!['o', 'r']);
    assert(name_end(s, q + 2) == q + 2);
    assert(name_end(s, q + 1) == q + 2);
    assert(name_end(s, q) == q + 2);
    reveal_strlit("or");
    assert(seq!['o', 'r'] =~= "or"@);
    assert(crate::entities::is_logical_keyword(seq!['o', 'r']));
}

/// The rendering of a well-formed expression is not empty and starts
/// with a backslash, an opening parenthesis or the letter n.
proof fn lemma_first(e: Expr)
    requires
        well_formed(e),
    ensures
        e.rendering().len() > 0,
        e.rendering()[0] == '\\' || e.rendering()[0] == '(' || e.rendering()[0] == 'n',
{
    match e {
        Expr::Tag(t) => {
            assert(escaped(t) =~= seq!['\\', t[0]] + escaped(t.drop_first()));
        },
        Expr::Comparison(t, op, v) => {
            assert(escaped(t) =~= seq!['\\', t[0]] + escaped(t.drop_first()));
        },
        _ => {},
    }
}

/// A rendering in parentheses is read back as an operand.
proof fn lemma_parens(x: Expr, s: Seq<char>, p: int)
    requires
        well_formed(x),
        spelled(s, p, seq!['('] + x.rendering() + seq![')']),
    ensures
        parens_at(s, p) == Some((x, p + x.rendering().len() + 2)),
    decreases x, 2nat,
{
    let w = seq!['('] + x.rendering() + seq![')'];
    let n = x.rendering().len() as int;
    lemma_first(x);
    assert(s[p + 0] == w[0]);
    assert(s[p + (n + 1)] == w[n + 1]);
    assert(s[p + 1] == w[1]);
    assert(w[1] == x.rendering()[0]);
    assert forall|k: int| 0 <= k < n implies #[trigger] x.rendering()[k] == w[1 + k] by {}
    lemma_part(s, p, w, 1, x.rendering());
    lemma_rendering(x, s, p + 1);
    assert(skip_white(s, p + 1) == p + 1);
    assert(skip_white(s, p + 1 + n) == p + 1 + n);
    assert(full_at(s, p + 1) == Some((x, p + 1 + n)));
}

/// A name that ends where the text stops is read back as a tag.
proof fn lemma_tag(e: Expr, s: Seq<char>, p: int)
    requires
        well_formed(e),
        e is Tag,
        spelled(s, p, e.rendering()),
        stops(s, p + e.rendering().len()),
    ensures
        or_at(s, p) == Some((e, p + e.rendering().len())),
    decreases e, 0nat,
{
    let w = e.rendering();
    let n = w.len() as int;
    lemma_first(e);
    assert(s[p + 0] == w[0]);
    if has_word(s, p, seq!['n', 'o', 't']) {
        lemma_word_starts(s, p, seq!['n', 'o', 't']);
    }
    if has_word(s, p, seq!['N', 'O', 'T']) {
        lemma_word_starts(s, p, seq!['N', 'O', 'T']);
    }
    match e {
        Expr::Tag(t) => {
            lemma_escaped_len(t);
            lemma_name(s, p, t);
            lemma_no_operator(s, p + n);
            assert(parens_at(s, p) is None);
            assert(not_at(s, p) is None);
            assert(comparison_at(s, p) is None);
            assert(operand_at(s, p) == Some((e, p + n)));
            lemma_single(s, p, p + n, e);
        },
        _ => {},
    }
}

/// A comparison that ends where the text stops is read back.
#[verifier::rlimit(60)]
#[verifier::spinoff_prover]
proof fn lemma_comparison(e: Expr, s: Seq<char>, p: int)
    requires
        well_formed(e),
        e is Comparison,
        spelled(s, p, e.rendering()),
        stops(s, p + e.rendering().len()),
    ensures
        or_at(s, p) == Some((e, p + e.rendering().len())),
    decreases e, 0nat,
{
    let w = e.rendering();
    let n = w.len() as int;
    lemma_first(e);
    assert(s[p + 0] == w[0]);
    if has_word(s, p, seq!['n', 'o', 't']) {
        lemma_word_starts(s, p, seq!['n', 'o', 't']);
    }
    if has_word(s, p, seq!['N', 'O', 'T']) {
        lemma_word_starts(s, p, seq!['N', 'O', 'T']);
    }
    match e {
        Expr::Comparison(t, op, v) => {
            lemma_escaped_len(t);
            lemma_escaped_len(v);
            let a = p + 2 * t.len();
            let k = sign_text(op).len() as int;
            assert(escaped(v) =~= seq!['\\', v[0]] + escaped(v.drop_first()));
            assert forall|i: int| 0 <= i < escaped(t).len() implies #[trigger] escaped(t)[i]
                == w[0 + i] by {}
            lemma_part(s, p, w, 0, escaped(t));
            assert forall|i: int| 0 <= i < k implies #[trigger] sign_text(op)[i] == w[2 * t.len()
                + i] by {}
            lemma_part(s, p, w, (2 * t.len()) as int, sign_text(op));
            assert forall|i: int| 0 <= i < escaped(v).len() implies #[trigger] escaped(v)[i]
                == w[2 * t.len() + k + i] by {}
            lemma_part(s, p, w, (2 * t.len()) as int + k, escaped(v));
            assert(s[a + 0] == sign_text(op)[0]);
            assert(s[a + k + 0] == escaped(v)[0]);
            lemma_name(s, p, t);
            lemma_sign(s, a, op);
            lemma_name(s, a + k, v);
            assert(parens_at(s, p) is None);
            assert(not_at(s, p) is None);
            assert(comparison_at(s, p) == Some((e, p + n)));
            assert(operand_at(s, p) == Some((e, p + n)));
            lemma_single(s, p, p + n, e);
        },
        _ => {},
    }
}

/// A negation that ends where the text stops is read back.
#[verifier::rlimit(60)]
#[verifier::spinoff_prover]
proof fn lemma_not(e: Expr, s: Seq<char>, p: int)
    requires
        well_formed(e),
        e is Not,
        spelled(s, p, e.rendering()),
        stops(s, p + e.rendering().len()),
    ensures
        or_at(s, p) == Some((e, p + e.rendering().len())),
    decreases e, 0nat,
{
    let w = e.rendering();
    let n = w.len() as int;
    lemma_first(e);
    assert(s[p + 0] == w[0]);
    if has_word(s, p, seq!['n', 'o', 't']) {
        lemma_word_starts(s, p, seq!['n', 'o', 't']);
    }
    if has_word(s, p, seq!['N', 'O', 'T']) {
        lemma_word_starts(s, p, seq!['N', 'O', 'T']);
    }
    match e {
        Expr::Not(x) => {
            let inner = seq!['('] + x.rendering() + seq![')'];
            assert(w =~= seq!['n', 'o', 't'] + inner);
            let word = seq!['n', 'o', 't'];
            assert forall|i: int| 0 <= i < 3 implies #[trigger] word[i] == w[0 + i] by {}
            lemma_part(s, p, w, 0, word);
            lemma_spelled(s, p, word);
            assert forall|i: int| 0 <= i < inner.len() implies #[trigger] inner[i] == w[3 + i] by {}
            lemma_part(s, p, w, 3, inner);
            assert(s[p + 3 + 0] == inner[0]);
            lemma_parens(*x, s, p + 3);
            assert(keyword_at(s, p, seq!['n', 'o', 't'], seq!['N', 'O', 'T']));
            assert(skip_white(s, p + 3) == p + 3);
            assert(not_operand_at(s, p + 3, p) == Some((*x, p + n)));
            assert(parens_at(s, p) is None);
            assert(not_at(s, p) == Some((e, p + n)));
            assert(operand_at(s, p) == Some((e, p + n)));
            lemma_single(s, p, p + n, e);
        },
        _ => {},
    }
}

/// A conjunction that ends where the text stops is read back.
#[verifier::rlimit(60)]
#[verifier::spinoff_prover]
proof fn lemma_and(e: Expr, s: Seq<char>, p: int)
    requires
        well_formed(e),
        e is And,
        spelled(s, p, e.rendering()),
        stops(s, p + e.rendering().len()),
    ensures
        or_at(s, p) == Some((e, p + e.rendering().len())),
    decreases e, 0nat,
{
    let w = e.rendering();
    let n = w.len() as int;
    lemma_first(e);
    assert(s[p + 0] == w[0]);
    if has_word(s, p, seq!['n', 'o', 't']) {
        lemma_word_starts(s, p, seq!['n', 'o', 't']);
    }
    if has_word(s, p, seq!['N', 'O', 'T']) {
        lemma_word_starts(s, p, seq!['N', 'O', 'T']);
    }
    match e {
        Expr::And(l, r) => {
            let left = seq!['('] + l.rendering() + seq![')'];
            let right = seq!['('] + r.rendering() + seq![')'];
            let word = seq!['a', 'n', 'd'];
            assert(w =~= left + word + right);
            let q = p + left.len();
            assert forall|i: int| 0 <= i < left.len() implies #[trigger] left[i] == w[0 + i] by {}
            lemma_part(s, p, w, 0, left);
            assert forall|i: int| 0 <= i < 3 implies #[trigger] word[i] == w[left.len() + i] by {}
            lemma_part(s, p, w, left.len() as int, word);
            assert forall|i: int| 0 <= i < right.len() implies #[trigger] right[i] == w[left.len()
                + 3 + i] by {}
            lemma_part(s, p, w, (left.len() + 3) as int, right);
            lemma_parens(*l, s, p);
            lemma_parens(*r, s, q + 3);
            assert(s[q + 0] == word[0]);
            assert(s[q + 1] == word[1]);
            assert(s[q + 2] == word[2]);
            assert(s[q + 3 + 0] == right[0]);
            lemma_and_word(s, q);
            assert(operand_at(s, p) == Some((*l, q)));
            assert(operand_at(s, q + 3) == Some((*r, p + n)));
            lemma_single(s, q + 3, p + n, *r);
            assert(and_at(s, p) == Some((e, p + n)));
            lemma_no_operand(s, p + n);
        },
        _ => {},
    }
}

/// A disjunction that ends where the text stops is read back.
#[verifier::rlimit(60)]
#[verifier::spinoff_prover]
proof fn lemma_or(e: Expr, s: Seq<char>, p: int)
    requires
        well_formed(e),
        e is Or,
        spelled(s, p, e.rendering()),
        stops(s, p + e.rendering().len()),
    ensures
        or_at(s, p) == Some((e, p + e.rendering().len())),
    decreases e, 0nat,
{
    let w = e.rendering();
    let n = w.len() as int;
    lemma_first(e);
    assert(s[p + 0] == w[0]);
    if has_word(s, p, seq!['n', 'o', 't']) {
        lemma_word_starts(s, p, seq!['n', 'o', 't']);
    }
    if has_word(s, p, seq!['N', 'O', 'T']) {
        lemma_word_starts(s, p, seq!['N', 'O', 'T']);
    }
    match e {
        Expr::Or(l, r) => {
            let left = seq!['('] + l.rendering() + seq![')'];
            let right = seq!['('] + r.rendering() + seq![')'];
            let word = seq!['o', 'r'];
            assert(w =~= left + word + right);
            let q = p + left.len();
            assert forall|i: int| 0 <= i < left.len() implies #[trigger] left[i] == w[0 + i] by {}
            lemma_part(s, p, w, 0, left);
            assert forall|i: int| 0 <= i < 2 implies #[trigger] word[i] == w[left.len() + i] by {}
            lemma_part(s, p, w, left.len() as int, word);
            assert forall|i: int| 0 <= i < right.len() implies #[trigger] right[i] == w[left.len()
                + 2 + i] by {}
            lemma_part(s, p, w, (left.len() + 2) as int, right);
            lemma_parens(*l, s, p);
            lemma_parens(*r, s, q + 2);
            lemma_spelled(s, q, word);
            assert(s[q + 0] == word[0]);
            assert(s[q + 1] == word[1]);
            assert(s[q + 2 + 0] == right[0]);
            lemma_or_word(s, q);
            assert(operand_at(s, p) == Some((*l, q)));
            assert(and_at(s, q) is None);
            assert(and_at(s, p) == Some((*l, q)));
            assert(operand_at(s, q + 2) == Some((*r, p + n)));
            lemma_single(s, q + 2, p + n, *r);
            assert(or_at(s, p) == Some((e, p + n)));
        },
        _ => {},
    }
}

/// A rendering that ends where the text stops is read back as the
/// expression.
proof fn lemma_rendering(e: Expr, s: Seq<char>, p: int)
    requires
        well_formed(e),
        spelled(s, p, e.rendering()),
        stops(s, p + e.rendering().len()),
    ensures
        or_at(s, p) == Some((e, p + e.rendering().len())),
    decreases e, 1nat,
{
    match e {
        Expr::Tag(_) => lemma_tag(e, s, p),
        Expr::Comparison(_, _, _) => lemma_comparison(e, s, p),
        Expr::Not(_) => lemma_not(e, s, p),
        Expr::And(_, _) => lemma_and(e, s, p),
        Expr::Or(_, _) => lemma_or(e, s, p),
    }
}

/// Parsing what a well-formed expression is written as gives the
/// expression back. As every operand of `and` and `or` is written in
/// parentheses, nothing is folded anew.
pub proof fn lemma_round_trip(e: Expr)
    requires
        well_formed(e),
    ensures
        !crate::query::parser::is_blank(e.rendering()),
        parsed(e.rendering()) == Some(e),
{
    let s = e.rendering();
    lemma_first(e);
    lemma_rendering(e, s, 0);
    assert(skip_white(s, 0) == 0);
    assert(skip_white(s, s.len() as int) == s.len());
}

} // verus!
