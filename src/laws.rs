//! General properties of parsing and evaluation, proved over the models
//! that the parser's and the evaluator's contracts speak of.
use crate::filter::{
    and_word, build_condition, condition_spec, expr_result, expr_wf, field_of, find_operator, holds,
    or_word, parse_spec, ErrorModel, ExprModel, FilterExpr, FilterField, FilterOp,
};
use crate::number::{number_literal, u32_literal};
use crate::process::ProcessInfo;
use crate::text::{
    ascii_lower, find_from, find_keyword_from, fold_eq, folds_to, is_ws, occurs_at, trim, trim_end, trim_start,
};
use vstd::prelude::*;

verus! {

/// `a` and `b` are the same text up to ASCII case.
pub open spec fn same_up_to_case(a: Seq<char>, b: Seq<char>) -> bool {
    a.len() == b.len() && forall|i: int| 0 <= i < a.len() ==> ascii_lower(a[i]) == ascii_lower(b[i])
}

/// The value text `v` is of the kind that `field` holds: a number as
/// `f32::from_str` reads it for cpu and mem, an unsigned integer for pid, any text for name and user.
pub open spec fn value_fits(field: FilterField, v: Seq<char>) -> bool {
    match field {
        FilterField::Cpu | FilterField::Mem => number_literal(v) is Some,
        FilterField::Pid => u32_literal(v) is Some,
        _ => true,
    }
}

proof fn lemma_fold_eq_letter(c: char, d: char, k: char)
    requires
        'a' <= k <= 'z',
        ascii_lower(c) == ascii_lower(d),
    ensures
        fold_eq(c, k) == fold_eq(d, k),
{
}

proof fn lemma_folds_to_case(a: Seq<char>, b: Seq<char>, w: Seq<char>)
    requires
        same_up_to_case(a, b),
        forall|i: int| 0 <= i < w.len() ==> 'a' <= #[trigger] w[i] <= 'z',
    ensures
        folds_to(a, w) == folds_to(b, w),
{
    if a.len() == w.len() {
        if folds_to(a, w) {
            assert forall|j: int| 0 <= j < w.len() implies #[trigger] fold_eq(b[0 + j], w[j]) by {
                assert(fold_eq(a[0 + j], w[j]));
                lemma_fold_eq_letter(a[j], b[j], w[j]);
            }
        }
        if folds_to(b, w) {
            assert forall|j: int| 0 <= j < w.len() implies #[trigger] fold_eq(a[0 + j], w[j]) by {
                assert(fold_eq(b[0 + j], w[j]));
                lemma_fold_eq_letter(a[j], b[j], w[j]);
            }
        }
    }
}

/// Field names are matched ignoring case: two spellings that differ only in
/// ASCII case (`CPU`, `Cpu`, `cpu`) name the same field, or both name none.
pub proof fn lemma_field_ignores_case(a: Seq<char>, b: Seq<char>)
    requires
        same_up_to_case(a, b),
    ensures
        field_of(a) == field_of(b),
{
    lemma_folds_to_case(a, b, seq!['c', 'p', 'u']);
    lemma_folds_to_case(a, b, seq!['m', 'e', 'm']);
    lemma_folds_to_case(a, b, seq!['m', 'e', 'm', 'o', 'r', 'y']);
    lemma_folds_to_case(a, b, seq!['p', 'i', 'd']);
    lemma_folds_to_case(a, b, seq!['n', 'a', 'm', 'e']);
    lemma_folds_to_case(a, b, seq!['u', 's', 'e', 'r']);
}

/// Type checking of a condition: `==` and `!=` are accepted on every field
/// with a value of the field's kind; the ordering operators are accepted on
/// cpu, mem and pid with a well-formed number; on name and user they are
/// refused with `TypeMismatch`, whatever the value.
pub proof fn lemma_condition_typing(field: FilterField, op: FilterOp, v: Seq<char>)
    ensures
        !op.spec_is_comparison() && value_fits(field, v) ==> build_condition(field, op, v) is Ok,
        op.spec_is_comparison() && field.spec_is_numeric() && value_fits(field, v)
            ==> build_condition(field, op, v) is Ok,
        op.spec_is_comparison() && !field.spec_is_numeric() ==> build_condition(
            field,
            op,
            v,
        ) matches Err(ErrorModel::TypeMismatch { .. }),
{
}

/// `or` binds more loosely than `and`: text that holds a whole-word `or`
/// parses, if at all, into an `Or` node at the top; an `And` node comes out
/// at the top only from text with no whole-word `or`.
pub proof fn lemma_or_splits_first(s: Seq<char>)
    ensures
        find_keyword_from(trim(s), or_word(), 0) is Some && parse_spec(s) is Ok ==> parse_spec(
            s,
        )->Ok_0 is Or,
        parse_spec(s) matches Ok(ExprModel::And(_, _)) ==> find_keyword_from(
            trim(s),
            or_word(),
            0,
        ) is None && find_keyword_from(trim(s), and_word(), 0) is Some,
{
}

/// An `and` node matches exactly the records that both sides match, an `or`
/// node those that either side matches.
pub proof fn lemma_connectives(l: ExprModel, r: ExprModel, p: ProcessInfo)
    ensures
        holds(ExprModel::And(Box::new(l), Box::new(r)), p) == (holds(l, p) && holds(r, p)),
        holds(ExprModel::Or(Box::new(l), Box::new(r)), p) == (holds(l, p) || holds(r, p)),
{
}

/// Parsing is deterministic: two parses of the same text that succeed give
/// trees that match exactly the same records.
pub proof fn lemma_parse_twice(s: Seq<char>, e1: FilterExpr, e2: FilterExpr, p: ProcessInfo)
    requires
        expr_result(Ok(e1)) == parse_spec(s),
        expr_result(Ok(e2)) == parse_spec(s),
    ensures
        e1.model() == e2.model(),
        holds(e1.model(), p) == holds(e2.model(), p),
{
}

/// Evaluation is pure: it depends on the expression and on the five fields
/// that filters read (pid, name, cpu, mem, user) alone, so evaluating the
/// same expression on the same record, or on any record that agrees on
/// those fields, always gives the same answer.
pub proof fn lemma_evaluation_pure(e: ExprModel, p: ProcessInfo, q: ProcessInfo)
    requires
        p.pid == q.pid,
        p.name@ == q.name@,
        p.cpu_percent@ == q.cpu_percent@,
        p.memory_percent@ == q.memory_percent@,
        p.user@ == q.user@,
    ensures
        holds(e, p) == holds(e, q),
    decreases e,
{
    match e {
        ExprModel::Simple(_) => {},
        ExprModel::And(l, r) => {
            lemma_evaluation_pure(*l, p, q);
            lemma_evaluation_pure(*r, p, q);
        },
        ExprModel::Or(l, r) => {
            lemma_evaluation_pure(*l, p, q);
            lemma_evaluation_pure(*r, p, q);
        },
    }
}

/// A character that operators are made of.
pub open spec fn is_operator_char(c: char) -> bool {
    c == '<' || c == '>' || c == '=' || c == '!'
}

/// The text `f op v`, with one space on each side of the operator.
pub open spec fn condition_text(f: Seq<char>, op: FilterOp, v: Seq<char>) -> Seq<char> {
    f + seq![' '] + op.symbol() + seq![' '] + v
}

proof fn lemma_find_from_none(s: Seq<char>, pat: Seq<char>, i: int)
    requires
        0 <= i,
        forall|j: int| i <= j ==> !occurs_at(s, pat, j),
    ensures
        find_from(s, pat, i) is None,
    decreases s.len() + 1 - i,
{
    if i + pat.len() <= s.len() {
        lemma_find_from_none(s, pat, i + 1);
    }
}

proof fn lemma_find_from_at(s: Seq<char>, pat: Seq<char>, i: int, k: int)
    requires
        0 <= i <= k,
        occurs_at(s, pat, k),
        forall|j: int| i <= j < k ==> !occurs_at(s, pat, j),
    ensures
        find_from(s, pat, i) == Some(k),
    decreases k - i,
{
    if i < k {
        lemma_find_from_at(s, pat, i + 1, k);
    }
}

/// Where every operator character of `t` lies in `[k, k + m)`, an operator
/// that starts nowhere in that window does not occur in `t`.
proof fn lemma_operator_absent(t: Seq<char>, pat: Seq<char>, k: int, m: int)
    requires
        pat.len() > 0,
        is_operator_char(pat[0]),
        forall|j: int| 0 <= j < t.len() && is_operator_char(#[trigger] t[j]) ==> k <= j < k + m,
        forall|j: int| k <= j < k + m ==> !occurs_at(t, pat, j),
    ensures
        find_from(t, pat, 0) is None,
{
    assert forall|j: int| 0 <= j implies !occurs_at(t, pat, j) by {
        if occurs_at(t, pat, j) {
            assert(t[j] == t.subrange(j, j + pat.len())[0]);
        }
    }
    lemma_find_from_none(t, pat, 0);
}

/// Under the same conditions, an operator that occurs at `k` is first found there.
proof fn lemma_operator_at(t: Seq<char>, pat: Seq<char>, k: int, m: int)
    requires
        pat.len() > 0,
        is_operator_char(pat[0]),
        0 <= k,
        forall|j: int| 0 <= j < t.len() && is_operator_char(#[trigger] t[j]) ==> k <= j < k + m,
        occurs_at(t, pat, k),
    ensures
        find_from(t, pat, 0) == Some(k),
{
    assert forall|j: int| 0 <= j < k implies !occurs_at(t, pat, j) by {
        if occurs_at(t, pat, j) {
            assert(t[j] == t.subrange(j, j + pat.len())[0]);
        }
    }
    lemma_find_from_at(t, pat, 0, k);
}

proof fn lemma_trim_ends(v: Seq<char>)
    requires
        v.len() > 0,
        trim(v) == v,
    ensures
        !is_ws(v[0]),
        !is_ws(v.last()),
{
    crate::text::lemma_trim_start_len(v);
    crate::text::lemma_trim_end_len(trim_start(v));
    if is_ws(v[0]) {
        crate::text::lemma_trim_start_len(v.drop_first());
    }
    if !is_ws(v[0]) && is_ws(v.last()) {
        crate::text::lemma_trim_end_len(v.drop_last());
    }
}

proof fn lemma_field_text_letters(f: Seq<char>)
    requires
        field_of(f) is Some,
    ensures
        f.len() > 0,
        forall|i: int| 0 <= i < f.len() ==> !is_ws(#[trigger] f[i]) && !is_operator_char(f[i]),
{
    assert forall|i: int| 0 <= i < f.len() implies !is_ws(#[trigger] f[i]) && !is_operator_char(
        f[i],
    ) by {
        if folds_to(f, seq!['c', 'p', 'u']) {
            assert(fold_eq(f[0 + i], seq!['c', 'p', 'u'][i]));
        } else if folds_to(f, seq!['m', 'e', 'm']) {
            assert(fold_eq(f[0 + i], seq!['m', 'e', 'm'][i]));
        } else if folds_to(f, seq!['m', 'e', 'm', 'o', 'r', 'y']) {
            assert(fold_eq(f[0 + i], seq!['m', 'e', 'm', 'o', 'r', 'y'][i]));
        } else if folds_to(f, seq!['p', 'i', 'd']) {
            assert(fold_eq(f[0 + i], seq!['p', 'i', 'd'][i]));
        } else if folds_to(f, seq!['n', 'a', 'm', 'e']) {
            assert(fold_eq(f[0 + i], seq!['n', 'a', 'm', 'e'][i]));
        } else {
            assert(fold_eq(f[0 + i], seq!['u', 's', 'e', 'r'][i]));
        }
    }
}

/// Parsing a condition written as `field op value`: the field name in any
/// ASCII casing, any of the six operators, and a trimmed, non-empty value
/// with no operator characters. The parse is the type check of
/// `lemma_condition_typing` on that field, operator and value: `==` and `!=`
/// always succeed with a value of the field's kind, the ordering operators
/// succeed on cpu, mem and pid with a well-formed number, and on name and
/// user they fail with `TypeMismatch`.
pub proof fn lemma_condition_text_typing(f: Seq<char>, op: FilterOp, v: Seq<char>)
    requires
        field_of(f) is Some,
        v.len() > 0,
        trim(v) == v,
        forall|i: int| 0 <= i < v.len() ==> !is_operator_char(#[trigger] v[i]),
    ensures
        condition_spec(condition_text(f, op, v)) == build_condition(field_of(f)->Some_0, op, v),
        !op.spec_is_comparison() && value_fits(field_of(f)->Some_0, v) ==> condition_spec(
            condition_text(f, op, v),
        ) is Ok,
        op.spec_is_comparison() && field_of(f)->Some_0.spec_is_numeric() && value_fits(
            field_of(f)->Some_0,
            v,
        ) ==> condition_spec(condition_text(f, op, v)) is Ok,
        op.spec_is_comparison() && !field_of(f)->Some_0.spec_is_numeric() ==> condition_spec(
            condition_text(f, op, v),
        ) matches Err(ErrorModel::TypeMismatch { .. }),
        trim(condition_text(f, op, v)) == condition_text(f, op, v),
{
    let t = condition_text(f, op, v);
    let sym = op.symbol();
    let k = f.len() + 1int;
    let m = sym.len() as int;
    lemma_field_text_letters(f);
    lemma_trim_ends(v);
    assert(t[f.len() as int] == ' ');
    assert(forall|j: int| 0 <= j < m ==> t[k + j] == sym[j]);
    assert(t[k + m] == ' ');
    assert(forall|j: int| 0 <= j < v.len() ==> t[k + m + 1 + j] == v[j]);
    assert(forall|j: int| 0 <= j < f.len() ==> t[j] == f[j]);
    assert forall|j: int| 0 <= j < t.len() && is_operator_char(#[trigger] t[j]) implies k <= j < k
        + m by {
        if j < f.len() {
            assert(t[j] == f[j]);
        } else if j >= k + m + 1 {
            assert(t[j] == v[j - (k + m + 1)]);
        }
    }
    // The whole text and its two sides trim to themselves.
    assert(t.last() == v.last());
    assert(trim_start(t) == t);
    assert(trim_end(t) == t);
    let left = t.subrange(0, k);
    assert(left.drop_last() =~= f);
    assert(trim_start(left) == left);
    assert(trim_end(left) == trim_end(f));
    assert(trim_end(f) == f);
    assert(trim(left) == f);
    let right = t.subrange(k + m, t.len() as int);
    assert(right.drop_first() =~= v);
    assert(trim_start(right) == trim_start(v));
    assert(trim(right) == v);
    // The operator scan finds `op` at `k`.
    let gte = FilterOp::Gte.symbol();
    let lte = FilterOp::Lte.symbol();
    let ne = FilterOp::Ne.symbol();
    let eq = FilterOp::Eq.symbol();
    let gt = FilterOp::Gt.symbol();
    let lt = FilterOp::Lt.symbol();
    assert(t.subrange(k, k + m) =~= sym);
    match op {
        FilterOp::Gte => {
            lemma_operator_at(t, gte, k, m);
        },
        FilterOp::Lte => {
            lemma_operator_absent(t, gte, k, m);
            lemma_operator_at(t, lte, k, m);
        },
        FilterOp::Ne => {
            lemma_operator_absent(t, gte, k, m);
            lemma_operator_absent(t, lte, k, m);
            lemma_operator_at(t, ne, k, m);
        },
        FilterOp::Eq => {
            assert(!occurs_at(t, ne, k + 1)) by {
                assert(t[k + 1] == '=');
            }
            lemma_operator_absent(t, gte, k, m);
            lemma_operator_absent(t, lte, k, m);
            lemma_operator_absent(t, ne, k, m);
            lemma_operator_at(t, eq, k, m);
        },
        FilterOp::Gt => {
            assert(!occurs_at(t, gte, k)) by {
                assert(t.subrange(k, k + 2)[1] == ' ');
            }
            lemma_operator_absent(t, gte, k, m);
            lemma_operator_absent(t, lte, k, m);
            lemma_operator_absent(t, ne, k, m);
            lemma_operator_absent(t, eq, k, m);
            lemma_operator_at(t, gt, k, m);
        },
        FilterOp::Lt => {
            assert(!occurs_at(t, lte, k)) by {
                assert(t.subrange(k, k + 2)[1] == ' ');
            }
            lemma_operator_absent(t, gte, k, m);
            lemma_operator_absent(t, lte, k, m);
            lemma_operator_absent(t, ne, k, m);
            lemma_operator_absent(t, eq, k, m);
            assert(!occurs_at(t, gt, k)) by {
                assert(t.subrange(k, k + 1)[0] == t[k]);
            }
            lemma_operator_absent(t, gt, k, m);
            lemma_operator_at(t, lt, k, m);
        },
    }
    assert(find_operator(t) == Some((op, k)));
}

/// Type checking happens at parse time: every condition of a parsed tree is
/// well typed (its value is of its field's kind, and text fields carry only
/// `==` or `!=`), so evaluation never meets an ill-typed condition.
pub proof fn lemma_parsed_tree_well_typed(s: Seq<char>)
    ensures
        parse_spec(s) matches Ok(e) ==> expr_wf(e),
    decreases s.len(),
{
    let e = trim(s);
    crate::text::lemma_trim_len(s);
    crate::text::lemma_find_keyword_bounds(e, or_word(), 0);
    crate::text::lemma_find_keyword_bounds(e, and_word(), 0);
    match find_keyword_from(e, or_word(), 0) {
        Some(p) => {
            lemma_parsed_tree_well_typed(e.subrange(0, p));
            lemma_parsed_tree_well_typed(e.subrange(p + 2, e.len() as int));
        },
        None => match find_keyword_from(e, and_word(), 0) {
            Some(p) => {
                lemma_parsed_tree_well_typed(e.subrange(0, p));
                lemma_parsed_tree_well_typed(e.subrange(p + 3, e.len() as int));
            },
            None => {},
        },
    }
}

/// Two characters equal up to ASCII case are both whitespace or both not.
proof fn lemma_ws_ignores_case(c: char, d: char)
    requires
        ascii_lower(c) == ascii_lower(d),
    ensures
        is_ws(c) == is_ws(d),
{
}

/// Keyword search does not see ASCII case.
proof fn lemma_keyword_ignores_case(a: Seq<char>, b: Seq<char>, w: Seq<char>, i: int)
    requires
        same_up_to_case(a, b),
    ensures
        find_keyword_from(a, w, i) == find_keyword_from(b, w, i),
    decreases a.len() + 1 - i,
{
    if i < 0 || i + w.len() > a.len() {
    } else {
        if i > 0 {
            lemma_ws_ignores_case(a[i - 1], b[i - 1]);
        }
        if i + w.len() < a.len() {
            lemma_ws_ignores_case(a[i + w.len()], b[i + w.len()]);
        }
        assert(crate::text::folds_at(a, w, i) == crate::text::folds_at(b, w, i)) by {
            if crate::text::folds_at(a, w, i) {
                assert forall|j: int| 0 <= j < w.len() implies #[trigger] fold_eq(b[i + j], w[j]) by {
                    assert(fold_eq(a[i + j], w[j]));
                }
            }
            if crate::text::folds_at(b, w, i) {
                assert forall|j: int| 0 <= j < w.len() implies #[trigger] fold_eq(a[i + j], w[j]) by {
                    assert(fold_eq(b[i + j], w[j]));
                }
            }
        }
        lemma_keyword_ignores_case(a, b, w, i + 1);
    }
}

/// The expression of a condition text with no whole-word `and` or `or` is
/// that one condition: a whole parse of `field op value` gives the
/// condition that `lemma_condition_text_typing` describes.
pub proof fn lemma_parse_condition_text(f: Seq<char>, op: FilterOp, v: Seq<char>)
    requires
        field_of(f) is Some,
        v.len() > 0,
        trim(v) == v,
        forall|i: int| 0 <= i < v.len() ==> !is_operator_char(#[trigger] v[i]),
        find_keyword_from(condition_text(f, op, v), or_word(), 0) is None,
        find_keyword_from(condition_text(f, op, v), and_word(), 0) is None,
    ensures
        parse_spec(condition_text(f, op, v)) == match build_condition(field_of(f)->Some_0, op, v) {
            Ok(c) => Ok(ExprModel::Simple(c)),
            Err(e) => Err(e),
        },
{
    lemma_condition_text_typing(f, op, v);
}

/// A whole parse ignores the case of the field name: `CPU > 10` and
/// `cpu > 10` give the same expression (or the same error), with the field
/// that the name spells; and an ordering operator on name or user fails
/// with `TypeMismatch` whatever the value.
pub proof fn lemma_parse_field_case(f1: Seq<char>, f2: Seq<char>, op: FilterOp, v: Seq<char>)
    requires
        same_up_to_case(f1, f2),
        field_of(f1) is Some,
        v.len() > 0,
        trim(v) == v,
        forall|i: int| 0 <= i < v.len() ==> !is_operator_char(#[trigger] v[i]),
        find_keyword_from(condition_text(f1, op, v), or_word(), 0) is None,
        find_keyword_from(condition_text(f1, op, v), and_word(), 0) is None,
    ensures
        parse_spec(condition_text(f1, op, v)) == parse_spec(condition_text(f2, op, v)),
        parse_spec(condition_text(f1, op, v)) matches Ok(ExprModel::Simple(c)) ==> c.field
            == field_of(f1)->Some_0,
        op.spec_is_comparison() && !field_of(f1)->Some_0.spec_is_numeric() ==> parse_spec(
            condition_text(f1, op, v),
        ) matches Err(ErrorModel::TypeMismatch { .. }),
{
    lemma_field_ignores_case(f1, f2);
    let t1 = condition_text(f1, op, v);
    let t2 = condition_text(f2, op, v);
    assert forall|i: int| 0 <= i < t1.len() implies ascii_lower(t1[i]) == ascii_lower(t2[i]) by {
        if i < f1.len() {
            assert(t1[i] == f1[i] && t2[i] == f2[i]);
        } else {
            assert(t1[i] == t2[i]);
        }
    }
    lemma_keyword_ignores_case(t1, t2, or_word(), 0);
    lemma_keyword_ignores_case(t1, t2, and_word(), 0);
    lemma_parse_condition_text(f1, op, v);
    lemma_parse_condition_text(f2, op, v);
}

} // verus!
