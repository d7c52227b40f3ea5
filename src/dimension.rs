use vstd::prelude::*;

use crate::ast::{Expression, Meta};
use crate::bignum::BigNum;
use crate::literal::{constant_value, constant_values};
use crate::program::{ConstantInterpreter, Environment};
use crate::report::{extends, lemma_extends_push, lemma_extends_refl, lemma_extends_trans, Report};

verus! {

/// `v` as an array size, where it is one.
pub open spec fn as_size(v: int) -> Option<usize> {
    if 0 <= v <= usize::MAX {
        Some(v as usize)
    } else {
        None
    }
}

/// The size that a literal dimension denotes; `None` for anything else.
pub open spec fn literal_dimension(e: Expression) -> Option<usize> {
    match e {
        Expression::Number(_, v) => as_size(v@),
        _ => None,
    }
}

/// Appends the diagnostic for an expression that cannot be an array size.
pub(crate) fn report_invalid_dimension(meta: &Meta, reports: &mut Vec<Report>)
    ensures
        final(reports)@ == old(reports)@.push(Report::invalid_array_size_spec(*meta)),
{
    reports.push(Report::invalid_array_size(*meta));
}

/// Resolves an array dimension. A literal is converted; inside a template
/// nothing else is accepted; elsewhere the interpreter is asked, and the
/// reports it gives back are kept.
pub(crate) fn treat_dimension<I: ConstantInterpreter>(
    dim: &Expression,
    inside_template: bool,
    environment: &Environment,
    interpreter: &I,
    reports: &mut Vec<Report>,
) -> (r: Option<usize>)
    ensures
        extends(old(reports)@, final(reports)@),
        dim is Number ==> r == literal_dimension(*dim) && final(reports)@ == old(reports)@,
        inside_template && !(dim is Number) ==> r is None && final(reports)@ == old(reports)@,
        r is Some ==> final(reports)@ == old(reports)@,
{
    proof {
        lemma_extends_refl(reports@);
    }
    if inside_template && !dim.is_number() {
        None
    } else if let Expression::Number(_, v) = dim {
        v.to_usize()
    } else {
        let answer = interpreter.execute_constant_expression(dim, environment);
        dimension_from_answer(answer, reports)
    }
}

/// The size that the interpreter's answer gives: its value where that is a
/// size; on failure none, with the interpreter's reports appended as they
/// came.
pub fn dimension_from_answer(answer: Result<BigNum, Vec<Report>>, reports: &mut Vec<Report>) -> (r:
    Option<usize>)
    ensures
        extends(old(reports)@, final(reports)@),
        match answer {
            Ok(v) => r == as_size(v@) && final(reports)@ == old(reports)@,
            Err(rs) => r is None && final(reports)@ == old(reports)@ + rs@,
        },
{
    match answer {
        Err(mut rs) => {
            let ghost before = reports@;
            let ghost appended = rs@;
            reports.append(&mut rs);
            assert(reports@.subrange(0, before.len() as int) =~= before);
            None
        },
        Ok(v) => {
            proof {
                lemma_extends_refl(reports@);
            }
            v.to_usize()
        },
    }
}

/// The dimension of a uniform array at `meta` once its size is known: the
/// literal `n` under `meta` where it resolved to `n`; otherwise the
/// dimension as it was, with an invalid-array-size report at `meta`.
pub fn rewrite_dimension(
    meta: Meta,
    dimension: Box<Expression>,
    resolved: Option<usize>,
    reports: &mut Vec<Report>,
) -> (r: Box<Expression>)
    ensures
        extends(old(reports)@, final(reports)@),
        match resolved {
            Some(n) => (*r) is Number && r->Number_0 == meta && r->Number_1@ == n as int
                && final(reports)@ == old(reports)@,
            None => r == dimension && final(reports)@ == old(reports)@.push(
                Report::invalid_array_size_spec(meta),
            ),
        },
{
    match resolved {
        Some(v) => {
            proof {
                lemma_extends_refl(reports@);
            }
            Box::new(Expression::Number(meta, BigNum::from_usize(v)))
        },
        None => {
            let ghost before = reports@;
            report_invalid_dimension(&meta, reports);
            proof {
                lemma_extends_push(before, Report::invalid_array_size_spec(meta));
            }
            dimension
        },
    }
}

/// How a dimension stands after resolution: a literal that fits is rewritten
/// in place under `meta`; one that cannot be resolved is left as it was;
/// elsewhere than in a template, another expression may be replaced by the
/// literal that the interpreter gave.
pub open spec fn dimension_rewritten(
    old_d: Expression,
    new_d: Expression,
    meta: Meta,
    inside_template: bool,
) -> bool {
    if literal_dimension(old_d) is Some {
        new_d is Number && new_d->Number_0 == meta && new_d->Number_1@ == old_d->Number_1@
    } else if old_d is Number || inside_template {
        new_d == old_d
    } else {
        new_d == old_d || (new_d is Number && new_d->Number_0 == meta && as_size(new_d->Number_1@)
            is Some)
    }
}

/// How an expression stands after the dimensions of the uniform arrays in it
/// were resolved: the same tree, but for those dimensions.
pub open spec fn expression_rewritten(old_e: Expression, new_e: Expression, inside_template: bool) -> bool
    decreases old_e, 1int,
{
    match old_e {
        Expression::UniformArray { meta, value, dimension } => {
            &&& new_e is UniformArray
            &&& new_e->UniformArray_meta == meta
            &&& expression_rewritten(*value, *new_e->UniformArray_value, inside_template)
            &&& dimension_rewritten(*dimension, *new_e->UniformArray_dimension, meta, inside_template)
        },
        Expression::ArrayInLine { meta, values } => {
            &&& new_e is ArrayInLine
            &&& new_e->ArrayInLine_meta == meta
            &&& expressions_rewritten(values@, new_e->ArrayInLine_values@, inside_template)
        },
        Expression::Call { meta, id, args } => {
            &&& new_e is Call
            &&& new_e->Call_meta == meta
            &&& new_e->Call_id == id
            &&& expressions_rewritten(args@, new_e->Call_args@, inside_template)
        },
        Expression::BusCall { meta, id, args } => {
            &&& new_e is BusCall
            &&& new_e->BusCall_meta == meta
            &&& new_e->BusCall_id == id
            &&& expressions_rewritten(args@, new_e->BusCall_args@, inside_template)
        },
        Expression::InfixOp { meta, lhe, rhe } => {
            &&& new_e is InfixOp
            &&& new_e->InfixOp_meta == meta
            &&& expression_rewritten(*lhe, *new_e->InfixOp_lhe, inside_template)
            &&& expression_rewritten(*rhe, *new_e->InfixOp_rhe, inside_template)
        },
        _ => new_e == old_e,
    }
}

/// `expression_rewritten`, member by member.
pub open spec fn expressions_rewritten(olds: Seq<Expression>, news: Seq<Expression>, inside_template: bool) -> bool
    decreases olds, 0int,
{
    &&& olds.len() == news.len()
    &&& olds.len() > 0 ==> {
        &&& expressions_rewritten(olds.drop_last(), news.drop_last(), inside_template)
        &&& expression_rewritten(olds.last(), news.last(), inside_template)
    }
}

/// Every dimension of a uniform array in `e` is a literal, so resolving them
/// never asks the interpreter.
pub open spec fn literal_dims_only(e: Expression) -> bool
    decreases e, 1int,
{
    match e {
        Expression::UniformArray { value, dimension, .. } => (*dimension) is Number
            && literal_dims_only(*value),
        Expression::ArrayInLine { values, .. } => all_literal_dims_only(values@),
        Expression::Call { args, .. } => all_literal_dims_only(args@),
        Expression::BusCall { args, .. } => all_literal_dims_only(args@),
        Expression::InfixOp { lhe, rhe, .. } => literal_dims_only(*lhe) && literal_dims_only(*rhe),
        _ => true,
    }
}

pub open spec fn all_literal_dims_only(es: Seq<Expression>) -> bool
    decreases es, 0int,
{
    es.len() == 0 || (all_literal_dims_only(es.drop_last()) && literal_dims_only(es.last()))
}

/// The reports that resolving the uniform-array dimensions of `e` gives
/// where the interpreter is not asked: one invalid-array-size report at the
/// array for each dimension that is not a literal that fits, in walk order.
pub open spec fn expression_reports(e: Expression) -> Seq<Report>
    decreases e, 1int,
{
    match e {
        Expression::UniformArray { meta, value, dimension } => (if literal_dimension(*dimension) is Some {
            Seq::empty()
        } else {
            seq![Report::invalid_array_size_spec(meta)]
        }) + expression_reports(*value),
        Expression::ArrayInLine { values, .. } => expressions_reports(values@),
        Expression::Call { args, .. } => expressions_reports(args@),
        Expression::BusCall { args, .. } => expressions_reports(args@),
        Expression::InfixOp { lhe, rhe, .. } => expression_reports(*lhe) + expression_reports(*rhe),
        _ => Seq::empty(),
    }
}

pub open spec fn expressions_reports(es: Seq<Expression>) -> Seq<Report>
    decreases es, 0int,
{
    if es.len() == 0 {
        Seq::empty()
    } else {
        expressions_reports(es.drop_last()) + expression_reports(es.last())
    }
}

proof fn lemma_literal_dims_prefix(es: Seq<Expression>, k: int)
    requires
        0 <= k <= es.len(),
        all_literal_dims_only(es),
    ensures
        all_literal_dims_only(es.subrange(0, k)),
    decreases es.len() - k,
{
    if k == es.len() {
        assert(es.subrange(0, k) =~= es);
    } else {
        assert(es.drop_last().subrange(0, k) =~= es.subrange(0, k));
        lemma_literal_dims_prefix(es.drop_last(), k);
    }
}

/// Resolves the uniform-array dimensions of each member of a list.
fn treat_expressions<I: ConstantInterpreter>(
    exprs: Vec<Expression>,
    inside_template: bool,
    environment: &Environment,
    interpreter: &I,
    reports: &mut Vec<Report>,
) -> (r: Vec<Expression>)
    ensures
        extends(old(reports)@, final(reports)@),
        expressions_rewritten(exprs@, r@, inside_template),
        inside_template || all_literal_dims_only(exprs@) ==> final(reports)@ == old(reports)@
            + expressions_reports(exprs@),
    decreases exprs, 0int,
{
    let ghost orig = exprs@;
    let mut rest = exprs;
    let mut out: Vec<Expression> = Vec::new();
    let ghost mut i: int = 0;
    proof {
        lemma_extends_refl(reports@);
        assert(orig.subrange(0, 0) =~= Seq::<Expression>::empty());
        assert(old(reports)@ + Seq::<Report>::empty() =~= old(reports)@);
        if all_literal_dims_only(orig) {
            lemma_literal_dims_prefix(orig, orig.len() as int);
        }
    }
    while rest.len() > 0
        invariant
            0 <= i <= orig.len(),
            orig == exprs@,
            rest@ == orig.subrange(i, orig.len() as int),
            extends(old(reports)@, reports@),
            expressions_rewritten(orig.subrange(0, i), out@, inside_template),
            all_literal_dims_only(orig) ==> all_literal_dims_only(orig.subrange(0, i)),
            inside_template || all_literal_dims_only(orig) ==> reports@ == old(reports)@
                + expressions_reports(orig.subrange(0, i)),
        decreases rest@.len(),
    {
        let x = rest.remove(0);
        proof {
            broadcast use vstd::std_specs::vec::axiom_vec_index_decreases;

            assert(x == exprs@[i]);
            assert(decreases_to!(exprs => exprs@[i]));
        }
        let ghost r0 = reports@;
        let ghost before = out@;
        proof {
            if all_literal_dims_only(orig) {
                lemma_literal_dims_prefix(orig, i + 1);
                assert(orig.subrange(0, i + 1).drop_last() =~= orig.subrange(0, i));
                assert(orig.subrange(0, i + 1).last() == x);
            }
        }
        let y = treat_expression(x, inside_template, environment, interpreter, reports);
        out.push(y);
        proof {
            lemma_extends_trans(old(reports)@, r0, reports@);
            assert(orig.subrange(0, i + 1).drop_last() =~= orig.subrange(0, i));
            assert(orig.subrange(0, i + 1).last() == x);
            if inside_template || all_literal_dims_only(orig) {
                assert(reports@ =~= old(reports)@ + expressions_reports(orig.subrange(0, i + 1)));
            }
            assert(out@.drop_last() =~= before);
            i = i + 1;
        }
    }
    assert(orig.subrange(0, i) =~= orig);
    out
}

/// Resolves the dimensions of the uniform arrays of an expression, wherever
/// they stand in it, and writes the resolved sizes into it as literals.
pub(crate) fn treat_expression<I: ConstantInterpreter>(
    expr: Expression,
    inside_template: bool,
    environment: &Environment,
    interpreter: &I,
    reports: &mut Vec<Report>,
) -> (r: Expression)
    ensures
        extends(old(reports)@, final(reports)@),
        expression_rewritten(expr, r, inside_template),
        expr is UniformArray && literal_dimension(*expr->UniformArray_dimension) is None && (
        inside_template || (*expr->UniformArray_dimension) is Number) ==> final(reports)@.len()
            > old(reports)@.len() && final(reports)@[old(reports)@.len() as int]
            == Report::invalid_array_size_spec(expr->UniformArray_meta),
        inside_template || literal_dims_only(expr) ==> final(reports)@ == old(reports)@
            + expression_reports(expr),
        !inside_template && expr is UniformArray && !((*expr->UniformArray_dimension) is Number)
            && (*r->UniformArray_dimension) == (*expr->UniformArray_dimension) ==> final(reports)@.len()
            > old(reports)@.len(),
    decreases expr, 1int,
{
    let ghost r0 = reports@;
    match expr {
        Expression::UniformArray { meta, value, dimension } => {
            let resolved = treat_dimension(&dimension, inside_template, environment, interpreter, reports);
            let ghost rd = reports@;
            let new_dimension = rewrite_dimension(meta, dimension, resolved, reports);
            let ghost r1 = reports@;
            let new_value = treat_expression(*value, inside_template, environment, interpreter, reports);
            proof {
                lemma_extends_trans(r0, rd, r1);
                lemma_extends_trans(r0, r1, reports@);
                if inside_template || literal_dims_only(expr) {
                    assert(rd == r0);
                    assert(reports@ =~= r0 + expression_reports(expr));
                }
            }
            Expression::UniformArray { meta, value: Box::new(new_value), dimension: new_dimension }
        },
        Expression::ArrayInLine { meta, values } => {
            let values = treat_expressions(values, inside_template, environment, interpreter, reports);
            Expression::ArrayInLine { meta, values }
        },
        Expression::Call { meta, id, args } => {
            let args = treat_expressions(args, inside_template, environment, interpreter, reports);
            Expression::Call { meta, id, args }
        },
        Expression::BusCall { meta, id, args } => {
            let args = treat_expressions(args, inside_template, environment, interpreter, reports);
            Expression::BusCall { meta, id, args }
        },
        Expression::InfixOp { meta, lhe, rhe } => {
            let lhe = treat_expression(*lhe, inside_template, environment, interpreter, reports);
            let ghost r1 = reports@;
            let rhe = treat_expression(*rhe, inside_template, environment, interpreter, reports);
            proof {
                lemma_extends_trans(r0, r1, reports@);
                if inside_template || literal_dims_only(expr) {
                    assert(reports@ =~= r0 + expression_reports(expr));
                }
            }
            Expression::InfixOp { meta, lhe: Box::new(lhe), rhe: Box::new(rhe) }
        },
        other => {
            proof {
                lemma_extends_refl(reports@);
                assert(reports@ =~= r0 + Seq::<Report>::empty());
            }
            other
        },
    }
}

pub(crate) proof fn lemma_template_constant_value(old_e: Expression, new_e: Expression)
    requires
        expression_rewritten(old_e, new_e, true),
    ensures
        constant_value(new_e) == constant_value(old_e),
    decreases old_e, 1int,
{
    match old_e {
        Expression::UniformArray { value, dimension, .. } => {
            lemma_template_constant_value(*value, *new_e->UniformArray_value);
            let nd = *new_e->UniformArray_dimension;
            if literal_dimension(*dimension) is Some {
                assert(constant_value(nd) =~= constant_value(*dimension));
            }
            assert(constant_value(nd) == constant_value(*dimension));
        },
        Expression::ArrayInLine { values, .. } => {
            lemma_template_constant_values(values@, new_e->ArrayInLine_values@);
        },
        _ => {},
    }
}

proof fn lemma_template_constant_values(olds: Seq<Expression>, news: Seq<Expression>)
    requires
        expressions_rewritten(olds, news, true),
    ensures
        constant_values(news) == constant_values(olds),
    decreases olds, 0int,
{
    if olds.len() > 0 {
        lemma_template_constant_values(olds.drop_last(), news.drop_last());
        lemma_template_constant_value(olds.last(), news.last());
    }
}

} // verus!
