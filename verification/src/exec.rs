//! Tree-walking evaluation: depth-first, left-to-right, over one mutable
//! variable environment, producing the printed output lines.
//!
//! The whole semantics is the structurally recursive specification function
//! [`run_statement`] (the language has no loops or user functions, so
//! evaluation always terminates); `interpret` is proved to produce exactly
//! the output lines and fault it describes.
//!
//! Design choices this module fixes, applied consistently throughout:
//! - `==` and `!=` are defined for numbers only; comparing strings or mixed
//!   operand types is a type-mismatch fault, like the other operators.
//! - arithmetic that leaves the 32-bit signed range is an overflow fault,
//!   never a silent wrap; `/` truncates towards zero and `%` takes the sign
//!   of the dividend.  The one remainder that Rust itself refuses,
//!   `i32::MIN % -1`, is 0 here, the mathematically exact value.

use crate::ast::ASTNode;
use crate::ast::SpecNode;
use crate::ast::SpecToken;
use crate::ast::Token;
use crate::ast::nodes_view;
use vstd::math::abs;
use vstd::prelude::*;

verus! {

/// A value a variable can hold or an expression can produce: a number or a
/// string; the language has no other value shape and no boolean kind.
#[derive(Debug)]
pub enum Value {
    Number(i32),
    StringLiteral(String),
}

/// The mathematical value of a [`Value`].
pub enum SpecValue {
    Number(int),
    StringLiteral(Seq<char>),
}

impl View for Value {
    type V = SpecValue;

    open spec fn view(&self) -> SpecValue {
        match self {
            Value::Number(n) => SpecValue::Number(*n as int),
            Value::StringLiteral(s) => SpecValue::StringLiteral(s@),
        }
    }
}

impl Clone for Value {
    fn clone(&self) -> (res: Value)
        ensures
            res@ == self@,
    {
        match self {
            Value::Number(n) => Value::Number(*n),
            Value::StringLiteral(s) => Value::StringLiteral(s.clone()),
        }
    }
}

/// An evaluation-time error.  Each aborts the run at the offending
/// operation; output already produced is kept.
#[derive(Debug)]
pub enum RuntimeFault {
    /// A reference to a name with no binding, carrying the name.
    UndefinedVariable(String),
    /// An operator applied to operand types it is not defined for.
    TypeMismatch,
    /// `/` or `%` with a zero right operand.
    DivisionByZero,
    /// An arithmetic result outside the 32-bit signed range.
    ArithmeticOverflow,
    /// A branch condition that evaluated to a string.
    NonNumericCondition,
    /// A tree shape the evaluator has no meaning for: an expression node in
    /// statement position, a statement node in expression position, or a
    /// non-operator token in an operation.
    MalformedNode,
}

/// The mathematical value of a [`RuntimeFault`].
pub enum SpecFault {
    UndefinedVariable(Seq<char>),
    TypeMismatch,
    DivisionByZero,
    ArithmeticOverflow,
    NonNumericCondition,
    MalformedNode,
}

impl View for RuntimeFault {
    type V = SpecFault;

    open spec fn view(&self) -> SpecFault {
        match self {
            RuntimeFault::UndefinedVariable(name) => SpecFault::UndefinedVariable(name@),
            RuntimeFault::TypeMismatch => SpecFault::TypeMismatch,
            RuntimeFault::DivisionByZero => SpecFault::DivisionByZero,
            RuntimeFault::ArithmeticOverflow => SpecFault::ArithmeticOverflow,
            RuntimeFault::NonNumericCondition => SpecFault::NonNumericCondition,
            RuntimeFault::MalformedNode => SpecFault::MalformedNode,
        }
    }
}

/// The values an i32 can hold.
pub open spec fn in_i32_range(v: int) -> bool {
    i32::MIN as int <= v <= i32::MAX as int
}

/// Division truncating towards zero, as the language defines `/`.
pub open spec fn truncated_div(a: int, b: int) -> int {
    if (a < 0) == (b < 0) {
        abs(a) as int / abs(b) as int
    } else {
        -(abs(a) as int / abs(b) as int)
    }
}

/// Remainder taking the sign of the dividend, as the language defines `%`.
pub open spec fn truncated_rem(a: int, b: int) -> int {
    if a < 0 {
        -(abs(a) as int % abs(b) as int)
    } else {
        abs(a) as int % abs(b) as int
    }
}

/// A numeric result if it fits the 32-bit signed range, else the overflow
/// fault.
pub open spec fn bounded_number(v: int) -> Result<SpecValue, SpecFault> {
    if in_i32_range(v) {
        Ok(SpecValue::Number(v))
    } else {
        Err(SpecFault::ArithmeticOverflow)
    }
}

/// An operator applied to two numbers.  Comparisons produce 1 or 0; there
/// is no boolean kind.
pub open spec fn apply_numeric_operator(op: SpecToken, a: int, b: int) -> Result<
    SpecValue,
    SpecFault,
> {
    match op {
        SpecToken::Plus => bounded_number(a + b),
        SpecToken::Minus => bounded_number(a - b),
        SpecToken::Asterisk => bounded_number(a * b),
        SpecToken::Slash => if b == 0 {
            Err(SpecFault::DivisionByZero)
        } else {
            bounded_number(truncated_div(a, b))
        },
        SpecToken::Modulo => if b == 0 {
            Err(SpecFault::DivisionByZero)
        } else {
            bounded_number(truncated_rem(a, b))
        },
        SpecToken::EqualEqual => Ok(SpecValue::Number(if a == b { 1int } else { 0int })),
        SpecToken::NotEqual => Ok(SpecValue::Number(if a != b { 1int } else { 0int })),
        SpecToken::LessThan => Ok(SpecValue::Number(if a < b { 1int } else { 0int })),
        SpecToken::GreaterThan => Ok(SpecValue::Number(if a > b { 1int } else { 0int })),
        _ => Err(SpecFault::MalformedNode),
    }
}

/// Whether `op` is a token the evaluator has any meaning for.
pub open spec fn is_evaluable_operator(op: SpecToken) -> bool {
    ||| op == SpecToken::Plus
    ||| op == SpecToken::Minus
    ||| op == SpecToken::Asterisk
    ||| op == SpecToken::Slash
    ||| op == SpecToken::Modulo
    ||| op == SpecToken::EqualEqual
    ||| op == SpecToken::NotEqual
    ||| op == SpecToken::LessThan
    ||| op == SpecToken::GreaterThan
}

/// A binary operation on two evaluated operands: every operator is defined
/// for (number, number) only.
pub open spec fn apply_operator(op: SpecToken, left: SpecValue, right: SpecValue) -> Result<
    SpecValue,
    SpecFault,
> {
    match (left, right) {
        (SpecValue::Number(a), SpecValue::Number(b)) => apply_numeric_operator(op, a, b),
        _ => if is_evaluable_operator(op) {
            Err(SpecFault::TypeMismatch)
        } else {
            Err(SpecFault::MalformedNode)
        },
    }
}

/// The decimal digits of `n >= 0`, most significant first.
pub open spec fn decimal_digits(n: int) -> Seq<char>
    recommends
        n >= 0,
    decreases n,
{
    if n < 10 {
        seq![digit_char(n)]
    } else {
        decimal_digits(n / 10) + seq![digit_char(n % 10)]
    }
}

/// The character of one decimal digit.
pub open spec fn digit_char(d: int) -> char {
    ((48 + d) as u8) as char
}

/// A number rendered in decimal, with a leading minus sign when negative.
pub open spec fn int_text(n: int) -> Seq<char> {
    if n < 0 {
        seq!['-'] + decimal_digits(-n)
    } else {
        decimal_digits(n)
    }
}

/// What `print` emits for a value: numbers in decimal, strings as their raw
/// content.
pub open spec fn value_text(v: SpecValue) -> Seq<char> {
    match v {
        SpecValue::Number(n) => int_text(n),
        SpecValue::StringLiteral(s) => s,
    }
}

/// Evaluation of an expression under an environment.  Both operands of an
/// operation are evaluated eagerly, left before right.
pub open spec fn eval_expr(env: Map<Seq<char>, SpecValue>, e: SpecNode) -> Result<
    SpecValue,
    SpecFault,
>
    decreases e,
{
    match e {
        SpecNode::NumberLiteral(v) => Ok(SpecValue::Number(v)),
        SpecNode::StringLiteral(s) => Ok(SpecValue::StringLiteral(s)),
        SpecNode::Identifier(name) => if env.contains_key(name) {
            Ok(env[name])
        } else {
            Err(SpecFault::UndefinedVariable(name))
        },
        SpecNode::BinaryOperation(l, op, r) => match eval_expr(env, *l) {
            Ok(lv) => match eval_expr(env, *r) {
                Ok(rv) => apply_operator(op, lv, rv),
                Err(f) => Err(f),
            },
            Err(f) => Err(f),
        },
        _ => Err(SpecFault::MalformedNode),
    }
}

/// The run-scoped machine state: the variable environment and the output
/// lines emitted so far.
pub struct SpecState {
    pub env: Map<Seq<char>, SpecValue>,
    pub output: Seq<Seq<char>>,
}

/// Execution of one statement.  On a fault the state holds whatever output
/// was emitted before it; nothing is rolled back.
pub open spec fn run_statement(st: SpecState, s: SpecNode) -> (SpecState, Option<SpecFault>)
    decreases s,
{
    match s {
        SpecNode::Program(stmts) => run_statements(st, stmts),
        SpecNode::Variable(name, e) => match eval_expr(st.env, *e) {
            Ok(v) => (SpecState { env: st.env.insert(name, v), output: st.output }, None),
            Err(f) => (st, Some(f)),
        },
        SpecNode::Assignment(name, e) => match eval_expr(st.env, *e) {
            Ok(v) => (SpecState { env: st.env.insert(name, v), output: st.output }, None),
            Err(f) => (st, Some(f)),
        },
        SpecNode::Print(e) => match eval_expr(st.env, *e) {
            Ok(v) => (SpecState { env: st.env, output: st.output.push(value_text(v)) }, None),
            Err(f) => (st, Some(f)),
        },
        SpecNode::If(c, thn) => match eval_expr(st.env, *c) {
            Ok(SpecValue::Number(n)) => if n != 0 {
                run_statements(st, thn)
            } else {
                (st, None)
            },
            Ok(SpecValue::StringLiteral(_)) => (st, Some(SpecFault::NonNumericCondition)),
            Err(f) => (st, Some(f)),
        },
        SpecNode::IfElse(c, thn, els) => match eval_expr(st.env, *c) {
            Ok(SpecValue::Number(n)) => if n != 0 {
                run_statements(st, thn)
            } else {
                run_statements(st, els)
            },
            Ok(SpecValue::StringLiteral(_)) => (st, Some(SpecFault::NonNumericCondition)),
            Err(f) => (st, Some(f)),
        },
        _ => (st, Some(SpecFault::MalformedNode)),
    }
}

/// Execution of a statement sequence, in order; a fault aborts the
/// remaining statements.
pub open spec fn run_statements(st: SpecState, stmts: Seq<SpecNode>) -> (
    SpecState,
    Option<SpecFault>,
)
    decreases stmts,
{
    if stmts.len() == 0 {
        (st, None)
    } else {
        let (st1, f) = run_statement(st, stmts[0]);
        if f is Some {
            (st1, f)
        } else {
            run_statements(st1, stmts.subrange(1, stmts.len() as int))
        }
    }
}

/// What one run of a program produces from an empty environment: the
/// printed lines, and the fault that aborted the run, if any.
pub open spec fn run_program(program: SpecNode) -> (Seq<Seq<char>>, Option<SpecFault>) {
    let start = SpecState { env: Map::empty(), output: Seq::empty() };
    let (end, f) = run_statement(start, program);
    (end.output, f)
}

/// The executable result agrees with a specification evaluation step.
pub open spec fn value_result_matches(
    r: Result<Value, RuntimeFault>,
    sr: Result<SpecValue, SpecFault>,
) -> bool {
    match r {
        Ok(v) => match sr {
            Ok(sv) => v@ == sv,
            Err(_) => false,
        },
        Err(f) => match sr {
            Ok(_) => false,
            Err(sf) => f@ == sf,
        },
    }
}

/// Relies on `String`'s `FromIterator` implementation over `char`:
/// collecting characters yields the string of exactly those characters, in
/// order.
#[verifier::external_body]
fn chars_to_string(chars: &Vec<char>) -> (r: String)
    ensures
        r@ == chars@,
{
    chars.iter().collect()
}

/// Appends the decimal digits of `m`, most significant first.
fn push_decimal_digits(m: u32, out: &mut Vec<char>)
    ensures
        final(out)@ == old(out)@ + decimal_digits(m as int),
    decreases m,
{
    if m < 10 {
        out.push((48 + m as u8) as char);
        proof {
            assert(final(out)@ =~= old(out)@ + seq![digit_char(m as int)]);
        }
    } else {
        let ghost before = out@;
        push_decimal_digits(m / 10, out);
        out.push((48 + (m % 10) as u8) as char);
        proof {
            assert(final(out)@ =~= before + (decimal_digits(m as int / 10) + seq![
                digit_char(m as int % 10),
            ]));
        }
    }
}

/// A number rendered in decimal: exactly [`int_text`].
fn int_to_string(n: i32) -> (r: String)
    ensures
        r@ == int_text(n as int),
{
    let mut digits: Vec<char> = Vec::new();
    if n < 0 {
        digits.push('-');
        let magnitude: u32 = (-(n as i64)) as u32;
        push_decimal_digits(magnitude, &mut digits);
        proof {
            assert(digits@ =~= seq!['-'] + decimal_digits(-(n as int)));
        }
    } else {
        push_decimal_digits(n as u32, &mut digits);
    }
    chars_to_string(&digits)
}

/// The environment a list of bindings denotes: later entries overwrite
/// earlier ones.
pub open spec fn env_view(pairs: Seq<(String, Value)>) -> Map<Seq<char>, SpecValue>
    decreases pairs,
{
    if pairs.len() == 0 {
        Map::empty()
    } else {
        env_view(pairs.drop_last()).insert(pairs.last().0@, pairs.last().1@)
    }
}

/// The tree-walking evaluator: one mutable environment and the output
/// emitted so far, both scoped to a single run.
struct Interpreter {
    variables: Vec<(String, Value)>,
    output: Vec<String>,
}

impl Interpreter {
    /// The environment this interpreter currently denotes.
    spec fn env(&self) -> Map<Seq<char>, SpecValue> {
        env_view(self.variables@)
    }

    /// The machine state this interpreter currently denotes.
    spec fn state(&self) -> SpecState {
        SpecState { env: self.env(), output: self.output@.map_values(|s: String| s@) }
    }

    fn new() -> (r: Interpreter)
        ensures
            r.state() == (SpecState { env: Map::<Seq<char>, SpecValue>::empty(), output: Seq::<
                Seq<char>,
            >::empty() }),
    {
        let r = Interpreter { variables: Vec::new(), output: Vec::new() };
        proof {
            assert(r.output@.map_values(|s: String| s@) =~= Seq::<Seq<char>>::empty());
        }
        r
    }

    /// The value bound to `name`, scanning the newest binding first.
    #[verifier::loop_isolation(false)]
    fn lookup_variable(&self, name: &String) -> (r: Option<Value>)
        ensures
            match r {
                Some(v) => self.env().contains_key(name@) && v@ == self.env()[name@],
                None => !self.env().contains_key(name@),
            },
    {
        let ghost target = name@;
        proof {
            assert(self.variables@.take(self.variables@.len() as int) =~= self.variables@);
        }
        let mut i: usize = self.variables.len();
        while i > 0
            invariant
                i <= self.variables@.len(),
                env_view(self.variables@).contains_key(target) == env_view(
                    self.variables@.take(i as int),
                ).contains_key(target),
                env_view(self.variables@).contains_key(target) ==> env_view(self.variables@)[target]
                    == env_view(self.variables@.take(i as int))[target],
            decreases i,
        {
            i = i - 1;
            let ghost shorter = self.variables@.take(i as int);
            let ghost longer = self.variables@.take(i + 1);
            proof {
                assert(longer.drop_last() =~= shorter);
                assert(longer.last() == self.variables@[i as int]);
                assert(env_view(longer) == env_view(shorter).insert(
                    self.variables@[i as int].0@,
                    self.variables@[i as int].1@,
                ));
            }
            let pair = &self.variables[i];
            if pair.0 == *name {
                return Some(pair.1.clone());
            }
        }
        proof {
            assert(self.variables@.take(0) =~= Seq::<(String, Value)>::empty());
        }
        None
    }

    /// Inserts or overwrites the binding for `name`.
    fn set_variable(&mut self, name: String, value: Value)
        ensures
            final(self).env() == old(self).env().insert(name@, value@),
            final(self).output@ == old(self).output@,
    {
        let ghost before = self.variables@;
        self.variables.push((name, value));
        proof {
            assert(self.variables@.drop_last() =~= before);
        }
    }

    fn evaluate_addition(&self, left: Value, right: Value) -> (r: Result<Value, RuntimeFault>)
        ensures
            value_result_matches(r, apply_operator(SpecToken::Plus, left@, right@)),
    {
        match (left, right) {
            (Value::Number(a), Value::Number(b)) => match a.checked_add(b) {
                Some(v) => Ok(Value::Number(v)),
                None => Err(RuntimeFault::ArithmeticOverflow),
            },
            _ => Err(RuntimeFault::TypeMismatch),
        }
    }

    fn evaluate_subtraction(&self, left: Value, right: Value) -> (r: Result<Value, RuntimeFault>)
        ensures
            value_result_matches(r, apply_operator(SpecToken::Minus, left@, right@)),
    {
        match (left, right) {
            (Value::Number(a), Value::Number(b)) => match a.checked_sub(b) {
                Some(v) => Ok(Value::Number(v)),
                None => Err(RuntimeFault::ArithmeticOverflow),
            },
            _ => Err(RuntimeFault::TypeMismatch),
        }
    }

    fn evaluate_multiplication(&self, left: Value, right: Value) -> (r: Result<
        Value,
        RuntimeFault,
    >)
        ensures
            value_result_matches(r, apply_operator(SpecToken::Asterisk, left@, right@)),
    {
        match (left, right) {
            (Value::Number(a), Value::Number(b)) => match a.checked_mul(b) {
                Some(v) => Ok(Value::Number(v)),
                None => Err(RuntimeFault::ArithmeticOverflow),
            },
            _ => Err(RuntimeFault::TypeMismatch),
        }
    }

    fn evaluate_division(&self, left: Value, right: Value) -> (r: Result<Value, RuntimeFault>)
        ensures
            value_result_matches(r, apply_operator(SpecToken::Slash, left@, right@)),
    {
        match (left, right) {
            (Value::Number(a), Value::Number(b)) => {
                if b == 0 {
                    Err(RuntimeFault::DivisionByZero)
                } else {
                    match a.checked_div(b) {
                        Some(v) => Ok(Value::Number(v)),
                        None => Err(RuntimeFault::ArithmeticOverflow),
                    }
                }
            },
            _ => Err(RuntimeFault::TypeMismatch),
        }
    }

    fn evaluate_modulo(&self, left: Value, right: Value) -> (r: Result<Value, RuntimeFault>)
        ensures
            value_result_matches(r, apply_operator(SpecToken::Modulo, left@, right@)),
    {
        match (left, right) {
            (Value::Number(a), Value::Number(b)) => {
                if b == 0 {
                    Err(RuntimeFault::DivisionByZero)
                } else if b == -1 {
                    // The remainder of dividing by -1 is exactly 0; Rust's
                    // `%` refuses the one case i32::MIN % -1.
                    Ok(Value::Number(0))
                } else {
                    match a.checked_rem(b) {
                        Some(v) => Ok(Value::Number(v)),
                        None => Err(RuntimeFault::ArithmeticOverflow),
                    }
                }
            },
            _ => Err(RuntimeFault::TypeMismatch),
        }
    }

    fn evaluate_equal(&self, left: Value, right: Value) -> (r: Result<Value, RuntimeFault>)
        ensures
            value_result_matches(r, apply_operator(SpecToken::EqualEqual, left@, right@)),
    {
        match (left, right) {
            (Value::Number(a), Value::Number(b)) => Ok(
                Value::Number(
                    if a == b {
                        1
                    } else {
                        0
                    },
                ),
            ),
            _ => Err(RuntimeFault::TypeMismatch),
        }
    }

    fn evaluate_not_equal(&self, left: Value, right: Value) -> (r: Result<Value, RuntimeFault>)
        ensures
            value_result_matches(r, apply_operator(SpecToken::NotEqual, left@, right@)),
    {
        match (left, right) {
            (Value::Number(a), Value::Number(b)) => Ok(
                Value::Number(
                    if a != b {
                        1
                    } else {
                        0
                    },
                ),
            ),
            _ => Err(RuntimeFault::TypeMismatch),
        }
    }

    fn evaluate_less_than(&self, left: Value, right: Value) -> (r: Result<Value, RuntimeFault>)
        ensures
            value_result_matches(r, apply_operator(SpecToken::LessThan, left@, right@)),
    {
        match (left, right) {
            (Value::Number(a), Value::Number(b)) => Ok(
                Value::Number(
                    if a < b {
                        1
                    } else {
                        0
                    },
                ),
            ),
            _ => Err(RuntimeFault::TypeMismatch),
        }
    }

    fn evaluate_greater_than(&self, left: Value, right: Value) -> (r: Result<Value, RuntimeFault>)
        ensures
            value_result_matches(r, apply_operator(SpecToken::GreaterThan, left@, right@)),
    {
        match (left, right) {
            (Value::Number(a), Value::Number(b)) => Ok(
                Value::Number(
                    if a > b {
                        1
                    } else {
                        0
                    },
                ),
            ),
            _ => Err(RuntimeFault::TypeMismatch),
        }
    }

    fn evaluate_binary_operation(&self, left: Value, operator: &Token, right: Value) -> (r: Result<
        Value,
        RuntimeFault,
    >)
        ensures
            value_result_matches(r, apply_operator(operator@, left@, right@)),
    {
        match operator {
            Token::Plus => self.evaluate_addition(left, right),
            Token::Minus => self.evaluate_subtraction(left, right),
            Token::Asterisk => self.evaluate_multiplication(left, right),
            Token::Slash => self.evaluate_division(left, right),
            Token::Modulo => self.evaluate_modulo(left, right),
            Token::EqualEqual => self.evaluate_equal(left, right),
            Token::NotEqual => self.evaluate_not_equal(left, right),
            Token::LessThan => self.evaluate_less_than(left, right),
            Token::GreaterThan => self.evaluate_greater_than(left, right),
            _ => Err(RuntimeFault::MalformedNode),
        }
    }

    /// Evaluates an expression under the current environment: exactly
    /// [`eval_expr`].
    fn evaluate_expression(&self, ast: &ASTNode) -> (r: Result<Value, RuntimeFault>)
        ensures
            value_result_matches(r, eval_expr(self.env(), ast@)),
        decreases *ast,
    {
        match ast {
            ASTNode::BinaryOperation(l, operator, r) => {
                let left = match self.evaluate_expression(l) {
                    Ok(v) => v,
                    Err(e) => {
                        return Err(e);
                    },
                };
                let right = match self.evaluate_expression(r) {
                    Ok(v) => v,
                    Err(e) => {
                        return Err(e);
                    },
                };
                self.evaluate_binary_operation(left, operator, right)
            },
            ASTNode::Identifier(name) => match self.lookup_variable(name) {
                Some(v) => Ok(v),
                None => Err(RuntimeFault::UndefinedVariable(name.clone())),
            },
            ASTNode::NumberLiteral(v) => Ok(Value::Number(*v)),
            ASTNode::StringLiteral(s) => Ok(Value::StringLiteral(s.clone())),
            _ => Err(RuntimeFault::MalformedNode),
        }
    }

    /// The display text of a value: numbers in decimal, strings raw.
    fn stringify_value(&self, value: Value) -> (r: String)
        ensures
            r@ == value_text(value@),
    {
        match value {
            Value::Number(v) => int_to_string(v),
            Value::StringLiteral(s) => s,
        }
    }

    /// Executes the statements of a sequence in order, stopping at the
    /// first fault: exactly [`run_statements`].
    #[verifier::loop_isolation(false)]
    fn execute_statements(&mut self, stmts: &Vec<ASTNode>) -> (r: Result<(), RuntimeFault>)
        ensures
            ({
                let (end, f) = run_statements(old(self).state(), nodes_view(stmts@));
                final(self).state() == end && (match r {
                    Ok(_) => f is None,
                    Err(e) => f == Some(e@),
                })
            }),
        decreases *stmts,
    {
        let ghost all = nodes_view(stmts@);
        let ghost st0 = old(self).state();
        proof {
            crate::ast::lemma_nodes_view(stmts@);
            assert(all.subrange(0, all.len() as int) =~= all);
        }
        let mut idx: usize = 0;
        while idx < stmts.len()
            invariant
                idx <= stmts@.len(),
                run_statements(st0, all) == run_statements(
                    self.state(),
                    all.subrange(idx as int, all.len() as int),
                ),
            decreases stmts@.len() - idx,
        {
            let ghost remaining = all.subrange(idx as int, all.len() as int);
            proof {
                assert(remaining[0] == all[idx as int]);
                assert(remaining.subrange(1, remaining.len() as int) =~= all.subrange(
                    idx + 1,
                    all.len() as int,
                ));
            }
            match self.interpret(&stmts[idx]) {
                Ok(_) => (),
                Err(e) => {
                    return Err(e);
                },
            }
            idx += 1;
        }
        proof {
            assert(all.subrange(all.len() as int, all.len() as int) =~= Seq::<SpecNode>::empty());
        }
        Ok(())
    }

    /// Executes one statement: exactly [`run_statement`].  A tree shape
    /// with no statement meaning is reported as a fault, never a crash.
    fn interpret(&mut self, ast: &ASTNode) -> (r: Result<(), RuntimeFault>)
        ensures
            ({
                let (end, f) = run_statement(old(self).state(), ast@);
                final(self).state() == end && (match r {
                    Ok(_) => f is None,
                    Err(e) => f == Some(e@),
                })
            }),
        decreases *ast,
    {
        match ast {
            ASTNode::Program(stmts) => self.execute_statements(stmts),
            ASTNode::Variable(name, e) => {
                let value = match self.evaluate_expression(e) {
                    Ok(v) => v,
                    Err(err) => {
                        return Err(err);
                    },
                };
                self.set_variable(name.clone(), value);
                Ok(())
            },
            ASTNode::Assignment(name, e) => {
                let value = match self.evaluate_expression(e) {
                    Ok(v) => v,
                    Err(err) => {
                        return Err(err);
                    },
                };
                self.set_variable(name.clone(), value);
                Ok(())
            },
            ASTNode::Print(e) => {
                let value = match self.evaluate_expression(e) {
                    Ok(v) => v,
                    Err(err) => {
                        return Err(err);
                    },
                };
                let ghost before = self.output@;
                let line = self.stringify_value(value);
                self.output.push(line);
                proof {
                    assert(self.output@.map_values(|s: String| s@) =~= before.map_values(
                        |s: String| s@,
                    ).push(value_text(value@)));
                }
                Ok(())
            },
            ASTNode::If(c, thn) => {
                let condition = match self.evaluate_expression(c) {
                    Ok(v) => v,
                    Err(err) => {
                        return Err(err);
                    },
                };
                match condition {
                    Value::Number(n) => if n != 0 {
                        self.execute_statements(thn)
                    } else {
                        Ok(())
                    },
                    Value::StringLiteral(_) => Err(RuntimeFault::NonNumericCondition),
                }
            },
            ASTNode::IfElse(c, thn, els) => {
                let condition = match self.evaluate_expression(c) {
                    Ok(v) => v,
                    Err(err) => {
                        return Err(err);
                    },
                };
                match condition {
                    Value::Number(n) => if n != 0 {
                        self.execute_statements(thn)
                    } else {
                        self.execute_statements(els)
                    },
                    Value::StringLiteral(_) => Err(RuntimeFault::NonNumericCondition),
                }
            },
            _ => Err(RuntimeFault::MalformedNode),
        }
    }
}

/// Walks the tree from an empty environment and returns the printed lines
/// in program order, together with the fault that aborted the run, if any:
/// exactly [`run_program`].  Lines printed before a fault are kept.
pub fn interpret(ast: &ASTNode) -> (r: (Vec<String>, Option<RuntimeFault>))
    ensures
        ({
            let (out, f) = run_program(ast@);
            r.0@.map_values(|s: String| s@) == out && (match r.1 {
                Some(e) => f == Some(e@),
                None => f is None,
            })
        }),
{
    let mut interpreter = Interpreter::new();
    match interpreter.interpret(ast) {
        Ok(_) => (interpreter.output, None),
        Err(e) => (interpreter.output, Some(e)),
    }
}

} // verus!
