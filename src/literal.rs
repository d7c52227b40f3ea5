use vstd::prelude::*;

use crate::ast::Expression;
use crate::bignum::BigNum;

verus! {

/// The integers held by a sequence of literals.
pub open spec fn values_view(v: Seq<BigNum>) -> Seq<int> {
    v.map_values(|b: BigNum| b@)
}

/// `s` written out `n` times in a row.
pub open spec fn repeat(s: Seq<int>, n: nat) -> Seq<int>
    decreases n,
{
    if n == 0 {
        Seq::empty()
    } else {
        repeat(s, (n - 1) as nat) + s
    }
}

/// The flattened value of an expression that is a closed literal, and `None`
/// for any other expression.
pub open spec fn constant_value(e: Expression) -> Option<Seq<int>>
    decreases e,
{
    match e {
        Expression::Number(_, v) => Some(seq![v@]),
        Expression::ArrayInLine { values, .. } => constant_values(values@),
        Expression::UniformArray { value, dimension, .. } => {
            match (constant_value(*value), constant_value(*dimension)) {
                (Some(v), Some(d)) => if d.len() == 1 && 0 <= d[0] <= usize::MAX {
                    Some(repeat(v, d[0] as nat))
                } else {
                    None
                },
                _ => None,
            }
        },
        _ => None,
    }
}

/// The concatenated flattened values of a list of closed literals, and `None`
/// where one of them is not one.
pub open spec fn constant_values(es: Seq<Expression>) -> Option<Seq<int>>
    decreases es,
{
    if es.len() == 0 {
        Some(Seq::empty())
    } else {
        match (constant_values(es.drop_last()), constant_value(es.last())) {
            (Some(a), Some(b)) => Some(a + b),
            _ => None,
        }
    }
}

proof fn lemma_constant_values_prefix(es: Seq<Expression>, k: int)
    requires
        0 <= k <= es.len(),
        constant_values(es.subrange(0, k)) is None,
    ensures
        constant_values(es) is None,
    decreases es.len() - k,
{
    if es.len() > k {
        assert(es.drop_last().subrange(0, k) =~= es.subrange(0, k));
        lemma_constant_values_prefix(es.drop_last(), k);
    } else {
        assert(es.subrange(0, k) =~= es);
    }
}

/// Appends copies of the literals of `src` to `dst`.
fn append_copies(dst: &mut Vec<BigNum>, src: &Vec<BigNum>)
    ensures
        values_view(final(dst)@) == values_view(old(dst)@) + values_view(src@),
{
    let mut j: usize = 0;
    while j < src.len()
        invariant
            0 <= j <= src@.len(),
            values_view(dst@) == values_view(old(dst)@) + values_view(src@).subrange(0, j as int),
        decreases src@.len() - j,
    {
        let c = src[j].duplicate();
        let ghost before = dst@;
        dst.push(c);
        assert(values_view(dst@) =~= values_view(before).push(c@));
        assert(values_view(src@).subrange(0, j + 1) =~= values_view(src@).subrange(0, j as int).push(
            src@[j as int]@,
        ));
        j = j + 1;
    }
    assert(values_view(src@).subrange(0, j as int) =~= values_view(src@));
}

/// Decides whether `e` is a closed literal (a number, or an array built from
/// literals alone) and gives its flattened value.
pub fn is_constant_expression(e: &Expression) -> (r: Option<Vec<BigNum>>)
    ensures
        match r {
            Some(v) => constant_value(*e) == Some(values_view(v@)),
            None => constant_value(*e) is None,
        },
    decreases e,
{
    match e {
        Expression::Number(_, v) => {
            let mut r: Vec<BigNum> = Vec::new();
            r.push(v.duplicate());
            assert(values_view(r@) =~= seq![v@]);
            Some(r)
        },
        Expression::ArrayInLine { values, .. } => {
            let mut result: Vec<BigNum> = Vec::new();
            let mut i: usize = 0;
            assert(values@.subrange(0, 0) =~= Seq::<Expression>::empty());
            assert(values_view(result@) =~= Seq::<int>::empty());
            while i < values.len()
                invariant
                    *e is ArrayInLine,
                    e->ArrayInLine_values == *values,
                    0 <= i <= values@.len(),
                    constant_values(values@.subrange(0, i as int)) == Some(values_view(result@)),
                decreases values@.len() - i,
            {
                assert(values@.subrange(0, i + 1).drop_last() =~= values@.subrange(0, i as int));
                proof {
                    broadcast use vstd::std_specs::vec::axiom_vec_index_decreases;

                    assert(decreases_to!(values => values@[i as int]));
                }
                match is_constant_expression(&values[i]) {
                    None => {
                        proof {
                            lemma_constant_values_prefix(values@, i + 1);
                        }
                        assert(constant_value(*e) == constant_values(values@));
                        return None;
                    },
                    Some(vals) => {
                        append_copies(&mut result, &vals);
                    },
                }
                i = i + 1;
            }
            assert(values@.subrange(0, i as int) =~= values@);
            Some(result)
        },
        Expression::UniformArray { value, dimension, .. } => {
            match is_constant_expression(value) {
                None => None,
                Some(v) => match is_constant_expression(dimension) {
                    None => None,
                    Some(d) => {
                        if d.len() != 1 {
                            return None;
                        }
                        match d[0].to_usize() {
                            None => None,
                            Some(n) => {
                                let mut result: Vec<BigNum> = Vec::new();
                                let mut k: usize = 0;
                                assert(values_view(result@) =~= repeat(values_view(v@), 0));
                                while k < n
                                    invariant
                                        0 <= k <= n,
                                        values_view(result@) == repeat(values_view(v@), k as nat),
                                    decreases n - k,
                                {
                                    append_copies(&mut result, &v);
                                    k = k + 1;
                                }
                                Some(result)
                            },
                        }
                    },
                },
            }
        },
        _ => None,
    }
}

} // verus!
