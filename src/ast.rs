//! The syntax tree, and what is computed from it: its value, its text, its
//! semantic warnings, its three-address code, and its optimized form.
use crate::number::{
    arith_of, arith_ok, bits_are_negative, bits_are_one, bits_are_zero, bits_have_fraction,
    call_arith, call_show, has_fraction_bits, is_negative_bits, is_one_bits, is_zero_bits, show_of,
    show_ok, NumOp, ONE_BITS, ZERO_BITS,
};
use crate::text::{id_name, make_id_name, make_temp_name, push_char, push_text, temp_name};
use vstd::prelude::*;

verus! {

/// A node of the syntax tree. `op` of a binary node is one of `+ - * / ^ =`;
#[derive(Debug)]
#[allow(inconsistent_fields)]
pub enum ASTNode {
    Number(u64),
    Identifier(String, usize),
    BinaryOp { op: char, left: Box<ASTNode>, right: Box<ASTNode> },
    UnaryOp { op: UnaryFn, operand: Box<ASTNode> },
}

/// A function applied to one operand.
#[derive(PartialEq, Eq, Structural, Clone, Copy, Debug)]
pub enum UnaryFn {
    Sqrt,
}

/// The spelling of a function.
pub open spec fn fn_name(f: UnaryFn) -> Seq<char> {
    match f {
        UnaryFn::Sqrt => sqrt_name(),
    }
}

impl UnaryFn {
    pub fn name(&self) -> (r: String)
        ensures
            r@ == fn_name(*self),
    {
        let mut r = String::new();
        push_char(&mut r, 's');
        push_char(&mut r, 'q');
        push_char(&mut r, 'r');
        push_char(&mut r, 't');
        assert(r@ =~= sqrt_name());
        r
    }
}

/// The spelling of the square-root operator.
pub open spec fn sqrt_name() -> Seq<char> {
    seq!['s', 'q', 'r', 't']
}

/// The numeric operation of a binary operator, if it has one.
pub open spec fn num_op_of(op: char) -> Option<NumOp> {
    if op == '+' {
        Some(NumOp::Add)
    } else if op == '-' {
        Some(NumOp::Sub)
    } else if op == '*' {
        Some(NumOp::Mul)
    } else if op == '/' {
        Some(NumOp::Div)
    } else if op == '^' {
        Some(NumOp::Pow)
    } else {
        None
    }
}

/// Some identifier occurs in the tree.
pub open spec fn has_vars(e: ASTNode) -> bool
    decreases e,
{
    match e {
        ASTNode::Number(_) => false,
        ASTNode::Identifier(_, _) => true,
        ASTNode::BinaryOp { left, right, .. } => has_vars(*left) || has_vars(*right),
        ASTNode::UnaryOp { operand, .. } => has_vars(*operand),
    }
}

/// The number of operator nodes, binary and unary.
pub open spec fn op_count(e: ASTNode) -> nat
    decreases e,
{
    match e {
        ASTNode::Number(_) => 0,
        ASTNode::Identifier(_, _) => 0,
        ASTNode::BinaryOp { left, right, .. } => 1 + op_count(*left) + op_count(*right),
        ASTNode::UnaryOp { operand, .. } => 1 + op_count(*operand),
    }
}

/// The value of the tree: identifiers count as zero, `=` gives its right side,
/// an unknown operator gives zero and an unknown function its argument.
pub open spec fn eval<A: Fn(NumOp, u64, u64) -> u64>(e: ASTNode, a: A) -> u64
    decreases e,
{
    match e {
        ASTNode::Number(b) => b,
        ASTNode::Identifier(_, _) => ZERO_BITS,
        ASTNode::BinaryOp { op, left, right } => {
            let l = eval(*left, a);
            let r = eval(*right, a);
            match num_op_of(op) {
                Some(nop) => arith_of(a, nop, l, r),
                None => if op == '=' {
                    r
                } else {
                    ZERO_BITS
                },
            }
        },
        ASTNode::UnaryOp { op, operand } => match op {
            UnaryFn::Sqrt => arith_of(a, NumOp::Sqrt, eval(*operand, a), ZERO_BITS),
        },
    }
}

/// The infix text of the tree: binary nodes fully parenthesized, unary nodes
/// as calls, numbers as `show` prints them, identifiers as `id<index>`.
pub open spec fn render<S: Fn(u64) -> String>(e: ASTNode, show: S) -> Seq<char>
    decreases e,
{
    match e {
        ASTNode::Number(b) => show_of(show, b),
        ASTNode::Identifier(_, idx) => id_name(idx as nat),
        ASTNode::BinaryOp { op, left, right } => seq!['('] + render(*left, show) + seq![
            ' ',
            op,
            ' ',
        ] + render(*right, show) + seq![')'],
        ASTNode::UnaryOp { op, operand } => fn_name(op) + seq!['('] + render(*operand, show) + seq![
            ')',
        ],
    }
}

pub open spec fn is_num_zero(e: ASTNode) -> bool {
    e matches ASTNode::Number(b) && is_zero_bits(b)
}

pub open spec fn is_num_one(e: ASTNode) -> bool {
    e matches ASTNode::Number(b) && is_one_bits(b)
}

/// A binary operator over two numbers is folded, but for `=`, an unknown
/// operator, and division by zero.
pub open spec fn folds(op: char, divisor: u64) -> bool {
    num_op_of(op) is Some && !(op == '/' && is_zero_bits(divisor))
}

/// The algebraic identities, applied to already optimized operands.
pub open spec fn simplify(op: char, l: ASTNode, r: ASTNode) -> ASTNode {
    if op == '+' && is_num_zero(r) {
        l
    } else if op == '+' && is_num_zero(l) {
        r
    } else if op == '-' && is_num_zero(r) {
        l
    } else if op == '*' && (is_num_zero(r) || is_num_zero(l)) {
        ASTNode::Number(ZERO_BITS)
    } else if op == '*' && is_num_one(r) {
        l
    } else if op == '*' && is_num_one(l) {
        r
    } else if op == '/' && is_num_one(r) {
        l
    } else if op == '^' && is_num_zero(r) {
        ASTNode::Number(ONE_BITS)
    } else if op == '^' && is_num_one(r) {
        l
    } else {
        ASTNode::BinaryOp { op, left: Box::new(l), right: Box::new(r) }
    }
}

/// The optimized tree: children first, then constant folding, else the identities.
pub open spec fn opt<A: Fn(NumOp, u64, u64) -> u64>(e: ASTNode, a: A) -> ASTNode
    decreases e,
{
    match e {
        ASTNode::Number(_) => e,
        ASTNode::Identifier(_, _) => e,
        ASTNode::BinaryOp { op, left, right } => {
            let l = opt(*left, a);
            let r = opt(*right, a);
            if l is Number && r is Number {
                if folds(op, r->Number_0) {
                    ASTNode::Number(arith_of(a, num_op_of(op)->0, l->Number_0, r->Number_0))
                } else {
                    ASTNode::BinaryOp { op, left: Box::new(l), right: Box::new(r) }
                }
            } else {
                simplify(op, l, r)
            }
        },
        ASTNode::UnaryOp { op, operand } => {
            let o = opt(*operand, a);
            if o is Number && op == UnaryFn::Sqrt {
                ASTNode::Number(arith_of(a, NumOp::Sqrt, o->Number_0, ZERO_BITS))
            } else {
                ASTNode::UnaryOp { op, operand: Box::new(o) }
            }
        },
    }
}

pub open spec fn division_warning() -> Seq<char> {
    "Warning: Division by zero detected"@
}

pub open spec fn complex_warning() -> Seq<char> {
    "Warning: Negative base with fractional exponent may produce complex numbers"@
}

/// The warnings of one binary node, before those of its children.
pub open spec fn node_warnings(op: char, left: ASTNode, right: ASTNode) -> Seq<Seq<char>> {
    let w1 = if op == '/' && is_num_zero(right) {
        seq![division_warning()]
    } else {
        Seq::empty()
    };
    let w2 = if op == '^' && left is Number && right is Number && is_negative_bits(left->Number_0)
        && has_fraction_bits(right->Number_0) {
        seq![complex_warning()]
    } else {
        Seq::empty()
    };
    w1 + w2
}

/// The semantic warnings of the tree, in pre-order.
pub open spec fn warnings(e: ASTNode) -> Seq<Seq<char>>
    decreases e,
{
    match e {
        ASTNode::BinaryOp { op, left, right } => node_warnings(op, *left, *right) + warnings(*left)
            + warnings(*right),
        ASTNode::UnaryOp { operand, .. } => warnings(*operand),
        _ => Seq::empty(),
    }
}

/// The text of a binary operator in three-address code.
pub open spec fn op_symbol(op: char) -> Seq<char> {
    if op == '+' || op == '-' || op == '*' || op == '/' || op == '^' || op == '=' {
        seq![op]
    } else {
        seq!['?']
    }
}

pub open spec fn eq_sep() -> Seq<char> {
    seq![' ', '=', ' ']
}

/// The three-address code of the tree with temporaries numbered from `c`, and
/// the operand that holds its value. Children come first, left before right;
/// every operator node takes one number, an assignment too.
pub open spec fn tac<S: Fn(u64) -> String>(e: ASTNode, c: nat, show: S) -> (
    Seq<Seq<char>>,
    Seq<char>,
)
    decreases e,
{
    match e {
        ASTNode::Number(b) => (Seq::empty(), show_of(show, b)),
        ASTNode::Identifier(_, idx) => (Seq::empty(), id_name(idx as nat)),
        ASTNode::BinaryOp { op, left, right } => {
            let (lc, lr) = tac(*left, c, show);
            let (rc, rr) = tac(*right, c + op_count(*left), show);
            let t = temp_name(c + op_count(*left) + op_count(*right));
            if op == '=' {
                ((lc + rc).push(lr + eq_sep() + rr), lr)
            } else {
                ((lc + rc).push(t + eq_sep() + lr + seq![' '] + op_symbol(op) + seq![' '] + rr), t)
            }
        },
        ASTNode::UnaryOp { op, operand } => {
            let (oc, orr) = tac(*operand, c, show);
            let t = temp_name(c + op_count(*operand));
            (oc.push(t + eq_sep() + fn_name(op) + seq!['('] + orr + seq![')']), t)
        },
    }
}

/// The texts of a sequence of strings.
pub open spec fn texts(v: Seq<String>) -> Seq<Seq<char>> {
    v.map_values(|s: String| s@)
}

fn num_op(op: char) -> (r: Option<NumOp>)
    ensures
        r == num_op_of(op),
{
    if op == '+' {
        Some(NumOp::Add)
    } else if op == '-' {
        Some(NumOp::Sub)
    } else if op == '*' {
        Some(NumOp::Mul)
    } else if op == '/' {
        Some(NumOp::Div)
    } else if op == '^' {
        Some(NumOp::Pow)
    } else {
        None
    }
}

fn node_is_zero(e: &ASTNode) -> (r: bool)
    ensures
        r == is_num_zero(*e),
{
    match e {
        ASTNode::Number(b) => bits_are_zero(*b),
        _ => false,
    }
}

fn node_is_one(e: &ASTNode) -> (r: bool)
    ensures
        r == is_num_one(*e),
{
    match e {
        ASTNode::Number(b) => bits_are_one(*b),
        _ => false,
    }
}

fn simplify_nodes(op: char, l: ASTNode, r: ASTNode) -> (res: ASTNode)
    ensures
        res == simplify(op, l, r),
{
    if op == '+' && node_is_zero(&r) {
        l
    } else if op == '+' && node_is_zero(&l) {
        r
    } else if op == '-' && node_is_zero(&r) {
        l
    } else if op == '*' && (node_is_zero(&r) || node_is_zero(&l)) {
        ASTNode::Number(ZERO_BITS)
    } else if op == '*' && node_is_one(&r) {
        l
    } else if op == '*' && node_is_one(&l) {
        r
    } else if op == '/' && node_is_one(&r) {
        l
    } else if op == '^' && node_is_zero(&r) {
        ASTNode::Number(ONE_BITS)
    } else if op == '^' && node_is_one(&r) {
        l
    } else {
        ASTNode::BinaryOp { op, left: Box::new(l), right: Box::new(r) }
    }
}

/// `dest = src`
fn copy_line(dest: &String, src: &String) -> (r: String)
    ensures
        r@ == dest@ + eq_sep() + src@,
{
    let mut line = dest.clone();
    push_char(&mut line, ' ');
    push_char(&mut line, '=');
    push_char(&mut line, ' ');
    push_text(&mut line, src);
    assert(line@ =~= dest@ + eq_sep() + src@);
    line
}

/// `dest = l op r`
fn op_line(dest: &String, l: &String, op: char, r: &String) -> (res: String)
    ensures
        res@ == dest@ + eq_sep() + l@ + seq![' '] + op_symbol(op) + seq![' '] + r@,
{
    let mut line = copy_line(dest, l);
    push_char(&mut line, ' ');
    if op == '+' || op == '-' || op == '*' || op == '/' || op == '^' || op == '=' {
        push_char(&mut line, op);
    } else {
        push_char(&mut line, '?');
    }
    push_char(&mut line, ' ');
    push_text(&mut line, r);
    assert(line@ =~= dest@ + eq_sep() + l@ + seq![' '] + op_symbol(op) + seq![' '] + r@);
    line
}

/// `dest = f(arg)`
fn call_line(dest: &String, f: &String, arg: &String) -> (r: String)
    ensures
        r@ == dest@ + eq_sep() + f@ + seq!['('] + arg@ + seq![')'],
{
    let mut line = copy_line(dest, f);
    push_char(&mut line, '(');
    push_text(&mut line, arg);
    push_char(&mut line, ')');
    assert(line@ =~= dest@ + eq_sep() + f@ + seq!['('] + arg@ + seq![')']);
    line
}

impl ASTNode {
    /// An independent copy of the tree.
    pub fn copy(&self) -> (r: ASTNode)
        ensures
            r == *self,
        decreases *self,
    {
        match self {
            ASTNode::Number(b) => ASTNode::Number(*b),
            ASTNode::Identifier(name, idx) => ASTNode::Identifier(name.clone(), *idx),
            ASTNode::BinaryOp { op, left, right } => ASTNode::BinaryOp {
                op: *op,
                left: Box::new(left.copy()),
                right: Box::new(right.copy()),
            },
            ASTNode::UnaryOp { op, operand } => ASTNode::UnaryOp {
                op: *op,
                operand: Box::new(operand.copy()),
            },
        }
    }

    pub fn has_variables(&self) -> (r: bool)
        ensures
            r == has_vars(*self),
        decreases *self,
    {
        match self {
            ASTNode::Identifier(_, _) => true,
            ASTNode::Number(_) => false,
            ASTNode::BinaryOp { left, right, .. } => left.has_variables() || right.has_variables(),
            ASTNode::UnaryOp { operand, .. } => operand.has_variables(),
        }
    }

    /// The value of the tree, computed with `arith`.
    pub fn evaluate<A: Fn(NumOp, u64, u64) -> u64>(&self, arith: &A) -> (r: u64)
        requires
            arith_ok(*arith),
        ensures
            r == eval(*self, *arith),
        decreases *self,
    {
        match self {
            ASTNode::Number(b) => *b,
            ASTNode::Identifier(_, _) => ZERO_BITS,
            ASTNode::BinaryOp { op, left, right } => {
                let l = left.evaluate(arith);
                let r = right.evaluate(arith);
                match num_op(*op) {
                    Some(nop) => call_arith(arith, nop, l, r),
                    None => if *op == '=' {
                        r
                    } else {
                        ZERO_BITS
                    },
                }
            },
            ASTNode::UnaryOp { op, operand } => {
                let v = operand.evaluate(arith);
                match op {
                    UnaryFn::Sqrt => call_arith(arith, NumOp::Sqrt, v, ZERO_BITS),
                }
            },
        }
    }

    /// The tree's text, numbers printed by `show`.
    pub fn to_text<S: Fn(u64) -> String>(&self, show: &S) -> (r: String)
        requires
            show_ok(*show),
        ensures
            r@ == render(*self, *show),
        decreases *self,
    {
        match self {
            ASTNode::Number(b) => call_show(show, *b),
            ASTNode::Identifier(_, idx) => make_id_name(*idx),
            ASTNode::BinaryOp { op, left, right } => {
                let mut r = String::new();
                push_char(&mut r, '(');
                let lt = left.to_text(show);
                push_text(&mut r, &lt);
                push_char(&mut r, ' ');
                push_char(&mut r, *op);
                push_char(&mut r, ' ');
                let rt = right.to_text(show);
                push_text(&mut r, &rt);
                push_char(&mut r, ')');
                assert(r@ =~= render(*self, *show));
                r
            },
            ASTNode::UnaryOp { op, operand } => {
                let mut r = op.name();
                push_char(&mut r, '(');
                let ot = operand.to_text(show);
                push_text(&mut r, &ot);
                push_char(&mut r, ')');
                assert(r@ =~= render(*self, *show));
                r
            },
        }
    }

    /// The three-address code of the tree, temporaries numbered from
    /// `*temp_counter`, and the operand that holds its value. The counter ends
    /// past the last number taken.
    pub fn to_three_address_code<S: Fn(u64) -> String>(&self, temp_counter: &mut usize, show: &S) -> (r: (Vec<String>, String))
        requires
            show_ok(*show),
            *old(temp_counter) + op_count(*self) <= usize::MAX,
        ensures
            *final(temp_counter) == *old(temp_counter) + op_count(*self),
            texts(r.0@) == tac(*self, *old(temp_counter) as nat, *show).0,
            r.1@ == tac(*self, *old(temp_counter) as nat, *show).1,
        decreases *self,
    {
        let ghost c0 = *temp_counter as nat;
        match self {
            ASTNode::Number(b) => {
                let v = call_show(show, *b);
                let code: Vec<String> = Vec::new();
                assert(texts(code@) =~= Seq::<Seq<char>>::empty());
                (code, v)
            },
            ASTNode::Identifier(_, idx) => {
                let code: Vec<String> = Vec::new();
                assert(texts(code@) =~= Seq::<Seq<char>>::empty());
                (code, make_id_name(*idx))
            },
            ASTNode::BinaryOp { op, left, right } => {
                let (mut code, left_result) = left.to_three_address_code(temp_counter, show);
                let (mut right_code, right_result) = right.to_three_address_code(temp_counter, show);
                let temp = make_temp_name(*temp_counter);
                *temp_counter = *temp_counter + 1;
                let ghost lc = texts(code@);
                let ghost rc = texts(right_code@);
                code.append(&mut right_code);
                assert(texts(code@) =~= lc + rc);
                if *op == '=' {
                    code.push(copy_line(&left_result, &right_result));
                    assert(texts(code@) =~= tac(*self, c0, *show).0);
                    (code, left_result)
                } else {
                    code.push(op_line(&temp, &left_result, *op, &right_result));
                    assert(texts(code@) =~= tac(*self, c0, *show).0);
                    (code, temp)
                }
            },
            ASTNode::UnaryOp { op, operand } => {
                let (mut code, operand_result) = operand.to_three_address_code(temp_counter, show);
                let temp = make_temp_name(*temp_counter);
                *temp_counter = *temp_counter + 1;
                let name = op.name();
                code.push(call_line(&temp, &name, &operand_result));
                assert(texts(code@) =~= tac(*self, c0, *show).0);
                (code, temp)
            },
        }
    }

    /// A new, optimized tree; `self` is left as it is.
    pub fn optimize<A: Fn(NumOp, u64, u64) -> u64>(&self, arith: &A) -> (r: ASTNode)
        requires
            arith_ok(*arith),
        ensures
            r == opt(*self, *arith),
        decreases *self,
    {
        match self {
            ASTNode::Number(_) => self.copy(),
            ASTNode::Identifier(_, _) => self.copy(),
            ASTNode::BinaryOp { op, left, right } => {
                let l = left.optimize(arith);
                let r = right.optimize(arith);
                if let (ASTNode::Number(lb), ASTNode::Number(rb)) = (&l, &r) {
                    if let Some(nop) = num_op(*op) {
                        if !(*op == '/' && bits_are_zero(*rb)) {
                            return ASTNode::Number(call_arith(arith, nop, *lb, *rb));
                        }
                    }
                    return ASTNode::BinaryOp { op: *op, left: Box::new(l), right: Box::new(r) };
                }
                simplify_nodes(*op, l, r)
            },
            ASTNode::UnaryOp { op, operand } => {
                let o = operand.optimize(arith);
                if let ASTNode::Number(b) = o {
                    if *op == UnaryFn::Sqrt {
                        return ASTNode::Number(call_arith(arith, NumOp::Sqrt, b, ZERO_BITS));
                    }
                }
                ASTNode::UnaryOp { op: *op, operand: Box::new(o) }
            },
        }
    }

    /// The semantic warnings of the tree, in pre-order. Never an error.
    pub fn semantic_check(&self) -> (r: Vec<String>)
        ensures
            texts(r@) == warnings(*self),
    {
        let mut w: Vec<String> = Vec::new();
        self.semantic_check_recursive(&mut w);
        assert(texts(w@) =~= warnings(*self));
        w
    }

    fn semantic_check_recursive(&self, w: &mut Vec<String>)
        ensures
            texts(final(w)@) == texts(old(w)@) + warnings(*self),
        decreases *self,
    {
        match self {
            ASTNode::BinaryOp { op, left, right } => {
                let ghost w0 = texts(w@);
                if *op == '/' && node_is_zero(right) {
                    w.push(String::from_str("Warning: Division by zero detected"));
                }
                if *op == '^' {
                    if let (ASTNode::Number(base), ASTNode::Number(exp)) = (&**left, &**right) {
                        if bits_are_negative(*base) && bits_have_fraction(*exp) {
                            w.push(
                                String::from_str(
                                    "Warning: Negative base with fractional exponent may produce complex numbers",
                                ),
                            );
                        }
                    }
                }
                assert(texts(w@) =~= w0 + node_warnings(*op, **left, **right));
                left.semantic_check_recursive(w);
                right.semantic_check_recursive(w);
                assert(texts(w@) =~= w0 + warnings(*self));
            },
            ASTNode::UnaryOp { operand, .. } => {
                operand.semantic_check_recursive(w);
            },
            _ => {
                assert(texts(w@) =~= texts(old(w)@) + warnings(*self));
            },
        }
    }
}

} // verus!
