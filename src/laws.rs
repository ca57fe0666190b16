//! Laws that relate the functions of the library, proved over their specifications.
use crate::ast::{eval, has_vars, opt, simplify, ASTNode};
use crate::lexer::{
    distinct, index_of, interned, lex, lex_from, prepend, step, Lexed, Step, TokenView,
};
use crate::number::{arith_of, is_zero_bits, NumOp, ONE_BITS, ZERO_BITS};
use vstd::prelude::*;

verus! {

/// `names` stands at the front of `ns`, every name of `ns` is distinct, and each
/// identifier token names the table entry at its index.
pub open spec fn table_consistent(
    names: Seq<Seq<char>>,
    ts: Seq<TokenView>,
    ns: Seq<Seq<char>>,
) -> bool {
    &&& names.len() <= ns.len()
    &&& ns.subrange(0, names.len() as int) == names
    &&& distinct(ns)
    &&& forall|i: int|
        0 <= i < ts.len() ==> (#[trigger] ts[i] matches TokenView::Identifier(t, k) ==> 1 <= k
            <= ns.len() && ns[k - 1] == t)
}

proof fn lemma_lex_from_consistent<P: Fn(String) -> u64>(
    s: Seq<char>,
    i: int,
    names: Seq<Seq<char>>,
    p: P,
)
    requires
        distinct(names),
    ensures
        lex_from(s, i, names, p) matches Ok((ts, ns)) ==> table_consistent(names, ts, ns),
    decreases s.len() - i,
{
    match step(s, i, names, p) {
        Step::Token(t, k, names2) => {
            if i < k <= s.len() {
                assert(distinct(names2) && names2.len() >= names.len() && names2.subrange(
                    0,
                    names.len() as int,
                ) == names && (t matches TokenView::Identifier(n, idx) ==> 1 <= idx
                    <= names2.len() && names2[idx - 1] == n)) by {
                    if let TokenView::Identifier(n, idx) = t {
                        assert(names2 == interned(names, n));
                        assert(idx == index_of(names, n));
                        if names.contains(n) {
                            let j = choose|j: int| 0 <= j < names.len() && names[j] == n;
                            assert(names2 =~= names);
                        } else {
                            assert(names2 =~= names.push(n));
                            assert forall|a: int, b: int| 0 <= a < b < names2.len() implies names2[a]
                                != names2[b] by {
                                if b == names.len() {
                                    assert(names.contains(names2[a]));
                                }
                            }
                        }
                    } else {
                        assert(names2 =~= names);
                    }
                    assert(names2.subrange(0, names.len() as int) =~= names);
                }
                lemma_lex_from_consistent(s, k, names2, p);
                if let Ok((us, ns)) = lex_from(s, k, names2, p) {
                    let ts = seq![t] + us;
                    assert(lex_from(s, i, names, p) == prepend(seq![t], lex_from(s, k, names2, p)));
                    assert(ns.subrange(0, names.len() as int) =~= names) by {
                        assert(ns.subrange(0, names2.len() as int) == names2);
                        assert forall|x: int| 0 <= x < names.len() implies ns[x] == names[x] by {
                            assert(ns.subrange(0, names2.len() as int)[x] == names2[x]);
                            assert(names2.subrange(0, names.len() as int)[x] == names2[x]);
                        }
                    }
                    assert forall|x: int| 0 <= x < ts.len() implies (#[trigger] ts[x] matches TokenView::Identifier(
                        n,
                        idx,
                    ) ==> 1 <= idx <= ns.len() && ns[idx - 1] == n) by {
                        if x == 0 {
                            if let TokenView::Identifier(n, idx) = t {
                                assert(ns.subrange(0, names2.len() as int)[idx - 1] == names2[idx - 1]);
                            }
                        } else {
                            assert(ts[x] == us[x - 1]);
                        }
                    }
                }
            } else {
                assert(names.subrange(0, names.len() as int) =~= names);
            }
        },
        Step::Done => {
            assert(names.subrange(0, names.len() as int) =~= names);
        },
        Step::Fail(_) => {},
    }
}

/// Identifier indices are stable. Lexing is a function of the input (the lexer's
/// contract pins its result to `lex`), so lexing it again gives the same tokens and
/// table. Within one run the table holds each name once, every identifier token
/// carries the index of its own name, and two identifier tokens have equal indices
/// exactly when they have equal names.
pub proof fn law_identifier_indices<P: Fn(String) -> u64>(s: Seq<char>, p: P)
    ensures
        lex(s, p) matches Ok((ts, ns)) ==> {
            &&& distinct(ns)
            &&& forall|i: int|
                0 <= i < ts.len() ==> (#[trigger] ts[i] matches TokenView::Identifier(t, k) ==> 1
                    <= k <= ns.len() && ns[k - 1] == t)
            &&& forall|i: int, j: int|
                0 <= i < ts.len() && 0 <= j < ts.len() && #[trigger] ts[i] is Identifier
                    && #[trigger] ts[j] is Identifier ==> (ts[i]->Identifier_0 == ts[j]->Identifier_0
                    <==> ts[i]->Identifier_1 == ts[j]->Identifier_1)
        },
{
    lemma_lex_from_consistent(s, 0, Seq::empty(), p);
    if let Ok((ts, ns)) = lex(s, p) {
        assert forall|i: int, j: int|
            0 <= i < ts.len() && 0 <= j < ts.len() && #[trigger] ts[i] is Identifier
                && #[trigger] ts[j] is Identifier implies (ts[i]->Identifier_0
            == ts[j]->Identifier_0 <==> ts[i]->Identifier_1 == ts[j]->Identifier_1) by {
            let ki = ts[i]->Identifier_1;
            let kj = ts[j]->Identifier_1;
            assert(ns[ki - 1] == ts[i]->Identifier_0);
            assert(ns[kj - 1] == ts[j]->Identifier_0);
            if ki != kj && ts[i]->Identifier_0 == ts[j]->Identifier_0 {
                if ki < kj {
                    assert(ns[ki - 1] != ns[kj - 1]);
                } else {
                    assert(ns[kj - 1] != ns[ki - 1]);
                }
            }
        }
    }
}

/// Only the arithmetic operators `+ - * / ^`, and functions, occur in the tree.
pub open spec fn arith_only(e: ASTNode) -> bool
    decreases e,
{
    match e {
        ASTNode::BinaryOp { op, left, right } => (op == '+' || op == '-' || op == '*' || op == '/'
            || op == '^') && arith_only(*left) && arith_only(*right),
        ASTNode::UnaryOp { operand, .. } => arith_only(*operand),
        _ => true,
    }
}

/// The shape the parser gives: arithmetic, or an assignment of arithmetic to
/// a further assignment or arithmetic.
pub open spec fn well_formed(e: ASTNode) -> bool
    decreases e,
{
    match e {
        ASTNode::BinaryOp { op, left, right } => if op == '=' {
            arith_only(*left) && well_formed(*right)
        } else {
            arith_only(e)
        },
        _ => arith_only(e),
    }
}

/// Every divisor in the tree has a value other than zero.
pub open spec fn divisors_nonzero<A: Fn(NumOp, u64, u64) -> u64>(e: ASTNode, a: A) -> bool
    decreases e,
{
    match e {
        ASTNode::BinaryOp { op, left, right } => (op == '/' ==> !is_zero_bits(eval(*right, a)))
            && divisors_nonzero(*left, a) && divisors_nonzero(*right, a),
        ASTNode::UnaryOp { operand, .. } => divisors_nonzero(*operand, a),
        _ => true,
    }
}

proof fn lemma_folds_fully<A: Fn(NumOp, u64, u64) -> u64>(e: ASTNode, a: A)
    requires
        !has_vars(e),
        arith_only(e),
        divisors_nonzero(e, a),
    ensures
        opt(e, a) == ASTNode::Number(eval(e, a)),
    decreases e,
{
    match e {
        ASTNode::BinaryOp { op, left, right } => {
            lemma_folds_fully(*left, a);
            lemma_folds_fully(*right, a);
        },
        ASTNode::UnaryOp { operand, .. } => {
            lemma_folds_fully(*operand, a);
        },
        _ => {},
    }
}

/// The optimizer keeps the value of a tree without identifiers, of the parser's
/// shape, in which no divisor is zero (a division by zero is left unfolded).
pub proof fn law_optimize_keeps_value<A: Fn(NumOp, u64, u64) -> u64>(e: ASTNode, a: A)
    requires
        !has_vars(e),
        well_formed(e),
        divisors_nonzero(e, a),
    ensures
        eval(opt(e, a), a) == eval(e, a),
    decreases e,
{
    if let ASTNode::BinaryOp { op, left, right } = e {
        if op == '=' {
            lemma_folds_fully(*left, a);
            law_optimize_keeps_value(*right, a);
            let l = opt(*left, a);
            let r = opt(*right, a);
            assert(simplify(op, l, r) == ASTNode::BinaryOp { op, left: Box::new(l), right: Box::new(r) });
            return;
        }
    }
    lemma_folds_fully(e, a);
}

/// Optimizing an optimized tree changes nothing.
pub proof fn law_optimize_idempotent<A: Fn(NumOp, u64, u64) -> u64>(e: ASTNode, a: A)
    ensures
        opt(opt(e, a), a) == opt(e, a),
    decreases e,
{
    match e {
        ASTNode::BinaryOp { op, left, right } => {
            law_optimize_idempotent(*left, a);
            law_optimize_idempotent(*right, a);
            let l = opt(*left, a);
            let r = opt(*right, a);
            let s = simplify(op, l, r);
            if !(l is Number && r is Number) {
                if s == l {
                } else if s == r {
                } else if s is Number {
                } else {
                    assert(s == ASTNode::BinaryOp { op, left: Box::new(l), right: Box::new(r) });
                }
            }
        },
        ASTNode::UnaryOp { operand, .. } => {
            law_optimize_idempotent(*operand, a);
        },
        _ => {},
    }
}

pub open spec fn times(x: ASTNode, y: ASTNode) -> ASTNode {
    ASTNode::BinaryOp { op: '*', left: Box::new(x), right: Box::new(y) }
}

pub open spec fn power(x: ASTNode, y: ASTNode) -> ASTNode {
    ASTNode::BinaryOp { op: '^', left: Box::new(x), right: Box::new(y) }
}

/// The identities `x*1 = x`, `x*0 = 0` and `x^0 = 1`, for an `x` that does not
/// fold to a number (an identifier, say).
pub proof fn law_identities<A: Fn(NumOp, u64, u64) -> u64>(x: ASTNode, a: A)
    requires
        !(opt(x, a) is Number),
    ensures
        opt(times(x, ASTNode::Number(ONE_BITS)), a) == opt(x, a),
        opt(times(x, ASTNode::Number(ZERO_BITS)), a) == ASTNode::Number(ZERO_BITS),
        opt(power(x, ASTNode::Number(ZERO_BITS)), a) == ASTNode::Number(ONE_BITS),
{
    assert(opt(ASTNode::Number(ONE_BITS), a) == ASTNode::Number(ONE_BITS));
    assert(opt(ASTNode::Number(ZERO_BITS), a) == ASTNode::Number(ZERO_BITS));
    assert(!is_zero_bits(ONE_BITS));
}

} // verus!
