//! Building one tree from the operands and operators of one nesting level.
use vstd::prelude::*;
use vstd::std_specs::iter::IteratorSpec;

use crate::calculation::operator::Operator;
use crate::calculation::Calculation;

verus! {

/// Whether the operator at `k` is the one applied last: no operator has a
/// lower rank, and every operator to its right has a higher one.
pub open spec fn binds_last(operators: Seq<Operator>, k: int) -> bool {
    &&& 0 <= k < operators.len()
    &&& forall|i: int|
        0 <= i < k ==> operators[k].spec_rank() <= (#[trigger] operators[i]).spec_rank()
    &&& forall|i: int|
        k < i < operators.len() ==> operators[k].spec_rank() < (#[trigger] operators[i]).spec_rank()
}

/// The index of the operator that is applied last: the rightmost among the
/// operators of the lowest rank.
pub open spec fn root_index(operators: Seq<Operator>) -> int
    decreases operators.len(),
{
    if operators.len() <= 1 {
        0
    } else {
        let before = root_index(operators.drop_last());
        if operators.last().spec_rank() <= operators[before].spec_rank() {
            operators.len() - 1
        } else {
            before
        }
    }
}

/// The root index is the one index that binds last.
pub proof fn lemma_root_index(operators: Seq<Operator>)
    requires
        operators.len() > 0,
    ensures
        binds_last(operators, root_index(operators)),
        forall|k: int| binds_last(operators, k) ==> k == root_index(operators),
    decreases operators.len(),
{
    if operators.len() > 1 {
        let shorter = operators.drop_last();
        lemma_root_index(shorter);
        let before = root_index(shorter);
        assert(binds_last(shorter, before));
        assert forall|i: int| 0 <= i < shorter.len() implies shorter[i] == operators[i] by {}
        assert forall|k: int| binds_last(operators, k) implies k == root_index(operators) by {
            if k < operators.len() - 1 {
                assert(binds_last(shorter, k));
            }
        }
    }
}

/// The tree that the usual rules of arithmetic give to the operands
/// `operands[0] .. operands[n]` joined by the operators
/// `operators[0] .. operators[n - 1]`: the operator of the lowest rank that
/// stands rightmost is the root, which makes a higher rank bind tighter and
/// equal ranks associate to the left.
pub open spec fn precedence_tree(operands: Seq<Calculation>, operators: Seq<Operator>) -> Calculation
    recommends
        operands.len() == operators.len() + 1,
    decreases operators.len(),
{
    if operators.len() == 0 {
        operands[0]
    } else {
        let k = root_index(operators);
        proof {
            lemma_root_index(operators);
        }
        Calculation::Unevaluated {
            lhs: Box::new(precedence_tree(operands.subrange(0, k + 1), operators.subrange(0, k))),
            operator: operators[k],
            rhs: Box::new(
                precedence_tree(
                    operands.subrange(k + 1, operands.len() as int),
                    operators.subrange(k + 1, operators.len() as int),
                ),
            ),
        }
    }
}

/// The tree of a level splits at the operator that binds last.
pub proof fn lemma_precedence_tree_split(
    operands: Seq<Calculation>,
    operators: Seq<Operator>,
    k: int,
)
    requires
        binds_last(operators, k),
    ensures
        precedence_tree(operands, operators) == (Calculation::Unevaluated {
            lhs: Box::new(precedence_tree(operands.subrange(0, k + 1), operators.subrange(0, k))),
            operator: operators[k],
            rhs: Box::new(
                precedence_tree(
                    operands.subrange(k + 1, operands.len() as int),
                    operators.subrange(k + 1, operators.len() as int),
                ),
            ),
        }),
{
    lemma_root_index(operators);
}

/// Operators of one rank associate to the left: the last of them is the
/// root, over the tree of all that stands before it.
pub proof fn lemma_equal_ranks_associate_left(operands: Seq<Calculation>, operators: Seq<Operator>)
    requires
        operators.len() > 0,
        operands.len() == operators.len() + 1,
        forall|i: int, j: int|
            0 <= i < operators.len() && 0 <= j < operators.len() ==> (#[trigger] operators[i]).spec_rank()
                == (#[trigger] operators[j]).spec_rank(),
    ensures
        precedence_tree(operands, operators) == (Calculation::Unevaluated {
            lhs: Box::new(precedence_tree(operands.drop_last(), operators.drop_last())),
            operator: operators.last(),
            rhs: Box::new(operands.last()),
        }),
{
    let last = operators.len() - 1;
    assert(binds_last(operators, last));
    lemma_precedence_tree_split(operands, operators, last);
    assert(operands.subrange(0, last + 1) == operands.drop_last());
    assert(operators.subrange(0, last) == operators.drop_last());
    assert(operands.subrange(last + 1, operands.len() as int)[0] == operands.last());
}

/// The higher rank binds tighter: of two operators between three operands,
/// the second is applied first exactly where its rank is the higher one.
pub proof fn lemma_higher_rank_binds_tighter(
    a: Calculation,
    first: Operator,
    b: Calculation,
    second: Operator,
    c: Calculation,
)
    ensures
        precedence_tree(seq![a, b, c], seq![first, second]) == if first.spec_rank()
            < second.spec_rank() {
            Calculation::Unevaluated {
                lhs: Box::new(a),
                operator: first,
                rhs: Box::new(
                    Calculation::Unevaluated { lhs: Box::new(b), operator: second, rhs: Box::new(c) },
                ),
            }
        } else {
            Calculation::Unevaluated {
                lhs: Box::new(
                    Calculation::Unevaluated { lhs: Box::new(a), operator: first, rhs: Box::new(b) },
                ),
                operator: second,
                rhs: Box::new(c),
            }
        },
{
    let operands = seq![a, b, c];
    let operators = seq![first, second];
    let k: int = if first.spec_rank() < second.spec_rank() { 0 } else { 1 };
    assert(binds_last(operators, k));
    lemma_precedence_tree_split(operands, operators, k);
    let (inner_operands, inner_operators) = if k == 0 {
        (operands.subrange(1, 3), operators.subrange(1, 2))
    } else {
        (operands.subrange(0, 2), operators.subrange(0, 1))
    };
    assert(binds_last(inner_operators, 0));
    lemma_precedence_tree_split(inner_operands, inner_operators, 0);
    assert(inner_operands.subrange(0, 1)[0] == inner_operands[0]);
    assert(inner_operands.subrange(1, 2)[0] == inner_operands[1]);
    if k == 0 {
        assert(operands.subrange(0, 1)[0] == a);
    } else {
        assert(operands.subrange(2, 3)[0] == c);
    }
}

/// The operands joined from left to right, whatever the ranks of the
/// operators: `((a . b) . c) . d`.
pub open spec fn left_chain(operands: Seq<Calculation>, operators: Seq<Operator>) -> Calculation
    recommends
        operands.len() == operators.len() + 1,
    decreases operators.len(),
{
    if operators.len() == 0 {
        operands[0]
    } else {
        Calculation::Unevaluated {
            lhs: Box::new(left_chain(operands.drop_last(), operators.drop_last())),
            operator: operators.last(),
            rhs: Box::new(operands.last()),
        }
    }
}

/// The index of the last operator of the lower rank, or -1 where there is
/// none.
pub open spec fn last_additive(operators: Seq<Operator>) -> int
    decreases operators.len(),
{
    if operators.len() == 0 {
        -1
    } else if operators.last().spec_rank() == 1 {
        operators.len() - 1
    } else {
        last_additive(operators.drop_last())
    }
}

/// The last operator of the lower rank has that rank, and those behind it
/// have the higher one.
pub proof fn lemma_last_additive(operators: Seq<Operator>)
    ensures
        -1 <= last_additive(operators) < operators.len(),
        last_additive(operators) >= 0 ==> operators[last_additive(operators)].spec_rank() == 1,
        forall|i: int|
            last_additive(operators) < i < operators.len() ==> (#[trigger] operators[i]).spec_rank()
                == 2,
    decreases operators.len(),
{
    if operators.len() > 0 && operators.last().spec_rank() != 1 {
        let shorter = operators.drop_last();
        lemma_last_additive(shorter);
        assert forall|i: int| last_additive(operators) < i < operators.len() implies (
        #[trigger] operators[i]).spec_rank() == 2 by {
            if i < shorter.len() {
                assert(shorter[i] == operators[i]);
            }
        }
    }
}

/// The tree that the grammar with one production for each rank gives:
///
/// ```text
/// sum     := product | sum ('+' | '-') product
/// product := operand | product ('*' | '/') operand
/// ```
pub open spec fn sum_of_products(operands: Seq<Calculation>, operators: Seq<Operator>) -> Calculation
    recommends
        operands.len() == operators.len() + 1,
    decreases operators.len(),
{
    let k = last_additive(operators);
    proof {
        lemma_last_additive(operators);
    }
    if k < 0 {
        left_chain(operands, operators)
    } else {
        Calculation::Unevaluated {
            lhs: Box::new(sum_of_products(operands.subrange(0, k + 1), operators.subrange(0, k))),
            operator: operators[k],
            rhs: Box::new(
                left_chain(
                    operands.subrange(k + 1, operands.len() as int),
                    operators.subrange(k + 1, operators.len() as int),
                ),
            ),
        }
    }
}

/// Operators of one rank are joined from left to right.
pub proof fn lemma_equal_ranks_make_a_chain(operands: Seq<Calculation>, operators: Seq<Operator>)
    requires
        operands.len() == operators.len() + 1,
        forall|i: int, j: int|
            0 <= i < operators.len() && 0 <= j < operators.len() ==> (#[trigger] operators[i]).spec_rank()
                == (#[trigger] operators[j]).spec_rank(),
    ensures
        precedence_tree(operands, operators) == left_chain(operands, operators),
    decreases operators.len(),
{
    if operators.len() > 0 {
        lemma_equal_ranks_associate_left(operands, operators);
        let shorter = operators.drop_last();
        assert forall|i: int, j: int| 0 <= i < shorter.len() && 0 <= j < shorter.len() implies (
        #[trigger] shorter[i]).spec_rank() == (#[trigger] shorter[j]).spec_rank() by {
            assert(shorter[i] == operators[i] && shorter[j] == operators[j]);
        }
        lemma_equal_ranks_make_a_chain(operands.drop_last(), shorter);
    }
}

/// The tree of precedence is the tree of the grammar with one production for
/// each of the two ranks.
pub proof fn lemma_precedence_tree_is_sum_of_products(
    operands: Seq<Calculation>,
    operators: Seq<Operator>,
)
    requires
        operands.len() == operators.len() + 1,
    ensures
        precedence_tree(operands, operators) == sum_of_products(operands, operators),
    decreases operators.len(),
{
    let k = last_additive(operators);
    lemma_last_additive(operators);
    if k < 0 {
        lemma_equal_ranks_make_a_chain(operands, operators);
    } else {
        assert(binds_last(operators, k));
        lemma_precedence_tree_split(operands, operators, k);
        lemma_precedence_tree_is_sum_of_products(
            operands.subrange(0, k + 1),
            operators.subrange(0, k),
        );
        let products = operators.subrange(k + 1, operators.len() as int);
        assert forall|i: int, j: int| 0 <= i < products.len() && 0 <= j < products.len() implies (
        #[trigger] products[i]).spec_rank() == (#[trigger] products[j]).spec_rank() by {
            assert(products[i] == operators[k + 1 + i] && products[j] == operators[k + 1 + j]);
        }
        lemma_equal_ranks_make_a_chain(
            operands.subrange(k + 1, operands.len() as int),
            products,
        );
    }
}

/// Joins the operands of one level by the operators between them into the
/// tree that precedence and left associativity give.
///
/// One left-to-right pass with a single deferred slot: an operator of the
/// lower rank that is followed by one of the higher rank waits, with all that
/// stands to its left, until the next operator of its own rank or the end.
/// One slot is enough because the operators have two ranks.
pub fn combine_operands_and_operators(
    operands: Vec<Calculation>,
    operators: Vec<Operator>,
) -> (result: Calculation)
    requires
        operands@.len() == operators@.len() + 1,
    ensures
        result == precedence_tree(operands@, operators@),
{
    broadcast use vstd::std_specs::vec::axiom_spec_into_iter;

    let ghost o = operands@;
    let ghost p = operators@;
    let mut operands = operands;
    let mut result = operands.remove(0);
    let mut tmp_operator: Option<Operator> = None;
    let mut tmp_result: Option<Calculation> = None;
    let ghost mut deferred: int = 0;
    let count = operators.len();
    let mut index: usize = 0;

    assert(o.subrange(0, 1)[0] == o[0]);
    assert(operands@ == o.skip(1));
    for operand in it: operands.into_iter()
        invariant
            p == operators@,
            o.len() == p.len() + 1,
            count == p.len(),
            it.seq() == o.skip(1),
            index == it.index(),
            index <= p.len(),
            tmp_operator is Some <==> tmp_result is Some,
            tmp_operator is None ==> {
                &&& result == precedence_tree(o.subrange(0, index + 1), p.subrange(0, index as int))
                &&& index < p.len() && p[index as int].spec_rank() == 2 ==> forall|i: int|
                    0 <= i < index ==> (#[trigger] p[i]).spec_rank() == 2
            },
            tmp_operator is Some ==> {
                &&& 0 <= deferred < index
                &&& tmp_operator == Some(p[deferred])
                &&& p[deferred].spec_rank() == 1
                &&& forall|i: int| deferred < i < index ==> (#[trigger] p[i]).spec_rank() == 2
                &&& tmp_result == Some(
                    precedence_tree(o.subrange(0, deferred + 1), p.subrange(0, deferred)),
                )
                &&& result == precedence_tree(
                    o.subrange(deferred + 1, index + 1),
                    p.subrange(deferred + 1, index as int),
                )
            },
    {
        assert(operand == o[index + 1]);
        let operator = operators[index];

        // check if we can append a delayed operation
        if let Some(delayed_operator) = tmp_operator {
            if delayed_operator.rank() == operator.rank() {
                proof {
                    let os = o.subrange(0, index + 1);
                    let ps = p.subrange(0, index as int);
                    assert(binds_last(ps, deferred));
                    lemma_precedence_tree_split(os, ps, deferred);
                    assert(os.subrange(0, deferred + 1) == o.subrange(0, deferred + 1));
                    assert(ps.subrange(0, deferred) == p.subrange(0, deferred));
                    assert(os.subrange(deferred + 1, os.len() as int) == o.subrange(
                        deferred + 1,
                        index + 1,
                    ));
                    assert(ps.subrange(deferred + 1, ps.len() as int) == p.subrange(
                        deferred + 1,
                        index as int,
                    ));
                }
                // then insert the delayed op into the tree
                result = Calculation::Unevaluated {
                    lhs: Box::new(tmp_result.take().unwrap()),
                    operator: tmp_operator.take().unwrap(),
                    rhs: Box::new(result),
                };
            }
        }
        index += 1;
        if index < count && operators[index].rank() > operator.rank() {
            // then delay the expansion of the current tree and store it away
            tmp_result = Some(result);
            tmp_operator = Some(operator);
            result = operand;
            proof {
                deferred = index - 1;
                assert(o.subrange(index as int, index + 1)[0] == o[index as int]);
            }
        } else {
            proof {
                let from = if tmp_operator is Some { deferred + 1 } else { 0 };
                let os = o.subrange(from, index + 1);
                let ps = p.subrange(from, index as int);
                let last = ps.len() - 1;
                assert(ps[last] == p[index - 1]);
                assert(binds_last(ps, last));
                lemma_precedence_tree_split(os, ps, last);
                assert(os.subrange(0, last + 1) == o.subrange(from, index as int));
                assert(ps.subrange(0, last) == p.subrange(from, index - 1));
                assert(os.subrange(last + 1, os.len() as int)[0] == o[index as int]);
            }
            result = Calculation::Unevaluated {
                lhs: Box::new(result),
                operator,
                rhs: Box::new(operand),
            };
        }
    }

    assert(o.subrange(0, index + 1) == o);
    assert(p.subrange(0, index as int) == p);
    if let Some(operator) = tmp_operator {
        proof {
            assert(binds_last(p, deferred));
            lemma_precedence_tree_split(o, p, deferred);
        }
        result = Calculation::Unevaluated {
            lhs: Box::new(tmp_result.take().unwrap()),
            operator,
            rhs: Box::new(result),
        }
    }
    result
}

} // verus!
