use vstd::prelude::*;

use crate::lexer::string_from_chars;
use crate::parser::{assignment_free, statement_shape};
use crate::nodes::{int_text, push_int, push_str, render, Node, Statements, Tree};

verus! {

/// A failure while evaluating one statement.
#[derive(Debug)]
pub enum CalcError {
    UnknownVariable(String),
    WrongNodeTree,
    DivisionByZero,
    NegativeExponent,
    Overflow,
}

/// The mathematical value of a `CalcError`.
pub enum Fault {
    UnknownVariable(Seq<char>),
    WrongNodeTree,
    DivisionByZero,
    NegativeExponent,
    Overflow,
}

impl CalcError {
    pub open spec fn view(&self) -> Fault {
        match self {
            CalcError::UnknownVariable(s) => Fault::UnknownVariable(s@),
            CalcError::WrongNodeTree => Fault::WrongNodeTree,
            CalcError::DivisionByZero => Fault::DivisionByZero,
            CalcError::NegativeExponent => Fault::NegativeExponent,
            CalcError::Overflow => Fault::Overflow,
        }
    }
}

/// The message of a fault.
pub open spec fn fault_text(f: Fault) -> Seq<char> {
    match f {
        Fault::UnknownVariable(v) => "Computation error: using unknown variable '"@ + v + "'"@,
        Fault::WrongNodeTree => "Computation error: wrong token sequence"@,
        Fault::DivisionByZero => "Computation error: division by zero"@,
        Fault::NegativeExponent => "Computation error: negative exponent"@,
        Fault::Overflow => "Computation error: result out of range"@,
    }
}

impl CalcError {
    /// The message of this error.
    pub fn message(&self) -> (r: String)
        ensures
            r@ == fault_text(self.view()),
    {
        let mut out: Vec<char> = Vec::new();
        match self {
            CalcError::UnknownVariable(v) => {
                push_str(&mut out, "Computation error: using unknown variable '");
                push_str(&mut out, v.as_str());
                push_str(&mut out, "'");
            },
            CalcError::WrongNodeTree => push_str(&mut out, "Computation error: wrong token sequence"),
            CalcError::DivisionByZero => push_str(&mut out, "Computation error: division by zero"),
            CalcError::NegativeExponent => push_str(&mut out, "Computation error: negative exponent"),
            CalcError::Overflow => push_str(&mut out, "Computation error: result out of range"),
        }
        assert(out@ =~= fault_text(self.view()));
        string_from_chars(&out)
    }
}

/// The line printed for a statement: its text and value, nothing for an
/// assignment, or the fault with the statement's text as context.
pub open spec fn report(t: Tree, o: Outcome) -> Option<Seq<char>> {
    match o {
        Ok(Some(n)) => Some(render(t) + " = "@ + int_text(n as int) + "; "@),
        Ok(None) => None,
        Err(f) => Some(fault_text(f) + ". Context: '"@ + render(t) + "' "@),
    }
}

pub open spec fn text_of(r: Option<String>) -> Option<Seq<char>> {
    match r {
        Some(s) => Some(s@),
        None => None,
    }
}

/// What a node evaluates to: a number, no value (an assignment), or a fault.
pub type Outcome = Result<Option<i128>, Fault>;

/// The variables of a session.
pub type Env = Map<Seq<char>, i128>;

pub open spec fn outcome_of(r: Result<Option<i128>, CalcError>) -> Outcome {
    match r {
        Ok(v) => Ok(v),
        Err(e) => Err(e.view()),
    }
}

/// The binary operators.
#[derive(Clone, Copy, Debug, PartialEq, Eq, Structural)]
pub enum Operator {
    Add,
    Subtract,
    Multiply,
    Divide,
    Power,
}

pub open spec fn in_range(v: int) -> bool {
    i128::MIN <= v <= i128::MAX
}

pub open spec fn abs(v: int) -> int {
    if v < 0 {
        -v
    } else {
        v
    }
}

/// Division rounding toward zero.
pub open spec fn trunc_div(x: int, y: int) -> int {
    let q = abs(x) / abs(y);
    if (x < 0) == (y < 0) {
        q
    } else {
        -q
    }
}

pub open spec fn pow(b: int, e: nat) -> int
    decreases e,
{
    if e == 0 {
        1
    } else {
        b * pow(b, (e - 1) as nat)
    }
}

/// An exact result, or `Overflow` when it does not fit in 128 bits.
pub open spec fn fit(v: int) -> Result<i128, Fault> {
    if in_range(v) {
        Ok(v as i128)
    } else {
        Err(Fault::Overflow)
    }
}

/// The value of `x op y`.
pub open spec fn apply(op: Operator, x: i128, y: i128) -> Result<i128, Fault> {
    match op {
        Operator::Add => fit(x + y),
        Operator::Subtract => fit(x - y),
        Operator::Multiply => fit(x * y),
        Operator::Divide => if y == 0 {
            Err(Fault::DivisionByZero)
        } else {
            fit(trunc_div(x as int, y as int))
        },
        Operator::Power => if y < 0 {
            Err(Fault::NegativeExponent)
        } else {
            fit(pow(x as int, y as nat))
        },
    }
}

/// Negation of an operand's outcome: a missing value is a wrong tree, and
/// a fault passes through.
pub open spec fn negate(o: Outcome) -> Outcome {
    match o {
        Ok(Some(v)) => match fit(-v) {
            Ok(w) => Ok(Some(w)),
            Err(f) => Err(f),
        },
        Ok(None) => Err(Fault::WrongNodeTree),
        Err(f) => Err(f),
    }
}

/// Combines both operands' outcomes: two numbers are operated on; a
/// missing value is a wrong tree; otherwise the left fault, then the right.
pub open spec fn combine(op: Operator, a: Outcome, b: Outcome) -> Outcome {
    match (a, b) {
        (Ok(Some(x)), Ok(Some(y))) => match apply(op, x, y) {
            Ok(v) => Ok(Some(v)),
            Err(f) => Err(f),
        },
        (Ok(_), Ok(_)) => Err(Fault::WrongNodeTree),
        (Err(f), _) => Err(f),
        (_, Err(f)) => Err(f),
    }
}

/// An assignment stores a number under a bare variable name and yields no value.
pub open spec fn assign(target: Tree, v: Outcome, env: Env) -> (Outcome, Env) {
    match (target, v) {
        (Tree::Variable(_, name), Ok(Some(n))) => (Ok(None), env.insert(name, n)),
        (_, Ok(_)) => (Err(Fault::WrongNodeTree), env),
        (_, Err(f)) => (Err(f), env),
    }
}

pub open spec fn lookup(env: Env, name: Seq<char>) -> Outcome {
    if env.contains_key(name) {
        Ok(Some(env[name]))
    } else {
        Err(Fault::UnknownVariable(name))
    }
}

/// The outcome of a tree and the environment after it. Both operands of a
/// binary node are evaluated, left first; the constant `PI` is 3.
pub open spec fn eval(t: Tree, env: Env) -> (Outcome, Env)
    decreases t,
{
    match t {
        Tree::NumberLiteral(_, n) => (Ok(Some(n)), env),
        Tree::Pi(_) => (Ok(Some(3)), env),
        Tree::Variable(_, name) => (lookup(env, name), env),
        Tree::RoundBrackets(_, c) => eval(*c, env),
        Tree::UnaryMinus(_, c) => {
            let (o, e) = eval(*c, env);
            (negate(o), e)
        },
        Tree::Add(_, a, b) => {
            let (x, e1) = eval(*a, env);
            let (y, e2) = eval(*b, e1);
            (combine(Operator::Add, x, y), e2)
        },
        Tree::Subtract(_, a, b) => {
            let (x, e1) = eval(*a, env);
            let (y, e2) = eval(*b, e1);
            (combine(Operator::Subtract, x, y), e2)
        },
        Tree::Multiply(_, a, b) => {
            let (x, e1) = eval(*a, env);
            let (y, e2) = eval(*b, e1);
            (combine(Operator::Multiply, x, y), e2)
        },
        Tree::Divide(_, a, b) => {
            let (x, e1) = eval(*a, env);
            let (y, e2) = eval(*b, e1);
            (combine(Operator::Divide, x, y), e2)
        },
        Tree::Power(_, a, b) => {
            let (x, e1) = eval(*a, env);
            let (y, e2) = eval(*b, e1);
            (combine(Operator::Power, x, y), e2)
        },
        Tree::Assignment(_, target, value) => {
            let (v, e1) = eval(*value, env);
            assign(*target, v, e1)
        },
    }
}

/// Whether two trees are equal but for their spans.
pub open spec fn same_shape(a: Tree, b: Tree) -> bool
    decreases a,
{
    match a {
        Tree::Multiply(_, x, y) => b is Multiply && same_shape(*x, *b->Multiply_1) && same_shape(
            *y,
            *b->Multiply_2,
        ),
        Tree::Divide(_, x, y) => b is Divide && same_shape(*x, *b->Divide_1) && same_shape(
            *y,
            *b->Divide_2,
        ),
        Tree::Add(_, x, y) => b is Add && same_shape(*x, *b->Add_1) && same_shape(*y, *b->Add_2),
        Tree::Subtract(_, x, y) => b is Subtract && same_shape(*x, *b->Subtract_1) && same_shape(
            *y,
            *b->Subtract_2,
        ),
        Tree::Power(_, x, y) => b is Power && same_shape(*x, *b->Power_1) && same_shape(
            *y,
            *b->Power_2,
        ),
        Tree::Assignment(_, x, y) => b is Assignment && same_shape(*x, *b->Assignment_1)
            && same_shape(*y, *b->Assignment_2),
        Tree::Variable(_, s) => b is Variable && b->Variable_1 == s,
        Tree::NumberLiteral(_, n) => b is NumberLiteral && b->NumberLiteral_1 == n,
        Tree::UnaryMinus(_, x) => b is UnaryMinus && same_shape(*x, *b->UnaryMinus_1),
        Tree::RoundBrackets(_, x) => b is RoundBrackets && same_shape(*x, *b->RoundBrackets_1),
        Tree::Pi(_) => b is Pi,
    }
}

/// Evaluation reads no spans: two trees equal but for their spans have the
/// same outcome and leave the same environment.
pub proof fn lemma_eval_ignores_spans(a: Tree, b: Tree, env: Env)
    requires
        same_shape(a, b),
    ensures
        eval(a, env) == eval(b, env),
    decreases a,
{
    match a {
        Tree::Multiply(_, x, y) => {
            lemma_eval_ignores_spans(*x, *b->Multiply_1, env);
            lemma_eval_ignores_spans(*y, *b->Multiply_2, eval(*x, env).1);
        },
        Tree::Divide(_, x, y) => {
            lemma_eval_ignores_spans(*x, *b->Divide_1, env);
            lemma_eval_ignores_spans(*y, *b->Divide_2, eval(*x, env).1);
        },
        Tree::Add(_, x, y) => {
            lemma_eval_ignores_spans(*x, *b->Add_1, env);
            lemma_eval_ignores_spans(*y, *b->Add_2, eval(*x, env).1);
        },
        Tree::Subtract(_, x, y) => {
            lemma_eval_ignores_spans(*x, *b->Subtract_1, env);
            lemma_eval_ignores_spans(*y, *b->Subtract_2, eval(*x, env).1);
        },
        Tree::Power(_, x, y) => {
            lemma_eval_ignores_spans(*x, *b->Power_1, env);
            lemma_eval_ignores_spans(*y, *b->Power_2, eval(*x, env).1);
        },
        Tree::Assignment(_, x, y) => {
            lemma_eval_ignores_spans(*y, *b->Assignment_2, env);
            assert(same_shape(*x, *b->Assignment_1));
        },
        Tree::UnaryMinus(_, x) => {
            lemma_eval_ignores_spans(*x, *b->UnaryMinus_1, env);
        },
        Tree::RoundBrackets(_, x) => {
            lemma_eval_ignores_spans(*x, *b->RoundBrackets_1, env);
        },
        _ => {},
    }
}

/// A tree without assignments leaves the environment as it was.
pub proof fn lemma_pure_keeps_env(t: Tree, env: Env)
    requires
        assignment_free(t),
    ensures
        eval(t, env).1 == env,
    decreases t,
{
    match t {
        Tree::Multiply(_, a, b) => {
            lemma_pure_keeps_env(*a, env);
            lemma_pure_keeps_env(*b, env);
        },
        Tree::Divide(_, a, b) => {
            lemma_pure_keeps_env(*a, env);
            lemma_pure_keeps_env(*b, env);
        },
        Tree::Add(_, a, b) => {
            lemma_pure_keeps_env(*a, env);
            lemma_pure_keeps_env(*b, env);
        },
        Tree::Subtract(_, a, b) => {
            lemma_pure_keeps_env(*a, env);
            lemma_pure_keeps_env(*b, env);
        },
        Tree::Power(_, a, b) => {
            lemma_pure_keeps_env(*a, env);
            lemma_pure_keeps_env(*b, env);
        },
        Tree::UnaryMinus(_, a) => lemma_pure_keeps_env(*a, env),
        Tree::RoundBrackets(_, a) => lemma_pure_keeps_env(*a, env),
        _ => {},
    }
}

/// A statement of the parsed form that fails leaves the environment as it
/// was; one that succeeds changes it only by the binding it assigns.
pub proof fn lemma_failed_statement_keeps_env(t: Tree, env: Env)
    requires
        statement_shape(t),
    ensures
        eval(t, env).0 is Err ==> eval(t, env).1 == env,
        t is Assignment && eval(t, env).0 is Ok ==> eval(t, env).1 == env.insert(
            t->Assignment_1->Variable_1,
            eval(*t->Assignment_2, env).0->Ok_0->Some_0,
        ),
        !(t is Assignment) ==> eval(t, env).1 == env,
{
    match t {
        Tree::Assignment(_, _, value) => lemma_pure_keeps_env(*value, env),
        _ => lemma_pure_keeps_env(t, env),
    }
}

proof fn lemma_pow_unit(b: int, e: nat)
    requires
        -1 <= b <= 1,
    ensures
        b == 0 ==> pow(b, e) == (if e == 0 { 1int } else { 0int }),
        b == 1 ==> pow(b, e) == 1,
        b == -1 ==> pow(b, e) == (if e % 2 == 0 { 1int } else { -1int }),
    decreases e,
{
    if e > 0 {
        lemma_pow_unit(b, (e - 1) as nat);
    }
}

proof fn lemma_pow_grows(b: int, n: nat, m: nat)
    requires
        abs(b) >= 2,
        n < m,
    ensures
        abs(pow(b, m)) >= 2 * abs(pow(b, n)),
    decreases m,
{
    let p = pow(b, (m - 1) as nat);
    assert(abs(b * p) == abs(b) * abs(p)) by (nonlinear_arith);
    assert(abs(b) * abs(p) >= 2 * abs(p)) by (nonlinear_arith)
        requires
            abs(b) >= 2,
            abs(p) >= 0,
    ;
    if n < m - 1 {
        lemma_pow_grows(b, n, (m - 1) as nat);
    }
}

/// `x` raised to the non-negative power `y`.
fn power(x: i128, y: i128) -> (r: Result<i128, CalcError>)
    requires
        y >= 0,
    ensures
        r matches Ok(v) ==> fit(pow(x as int, y as nat)) == Ok::<i128, Fault>(v),
        r matches Err(e) ==> e.view() == Fault::Overflow && !in_range(pow(x as int, y as nat)),
{
    if -1 <= x && x <= 1 {
        proof {
            lemma_pow_unit(x as int, y as nat);
        }
        if x == 0 {
            return Ok(if y == 0 { 1 } else { 0 });
        } else if x == 1 {
            return Ok(1);
        } else {
            return Ok(if y % 2 == 0 { 1 } else { -1 });
        }
    }
    let mut acc: i128 = 1;
    let mut i: i128 = 0;
    while i < y
        invariant
            0 <= i <= y,
            abs(x as int) >= 2,
            acc as int == pow(x as int, i as nat),
        decreases y - i,
    {
        match acc.checked_mul(x) {
            Some(v) => {
                acc = v;
                i = i + 1;
            },
            None => {
                proof {
                    let next = pow(x as int, (i + 1) as nat);
                    assert(next == x * acc);
                    if i + 1 < y {
                        lemma_pow_grows(x as int, (i + 1) as nat, y as nat);
                    }
                }
                return Err(CalcError::Overflow);
            },
        }
    }
    Ok(acc)
}

/// `x op y` with its faults.
fn operate(op: Operator, x: i128, y: i128) -> (r: Result<i128, CalcError>)
    ensures
        match apply(op, x, y) {
            Ok(v) => r == Ok::<i128, CalcError>(v),
            Err(f) => r matches Err(e) && e.view() == f,
        },
{
    let checked = match op {
        Operator::Add => x.checked_add(y),
        Operator::Subtract => x.checked_sub(y),
        Operator::Multiply => x.checked_mul(y),
        Operator::Divide => {
            if y == 0 {
                return Err(CalcError::DivisionByZero);
            }
            x.checked_div(y)
        },
        Operator::Power => {
            if y < 0 {
                return Err(CalcError::NegativeExponent);
            }
            return power(x, y);
        },
    };
    match checked {
        Some(v) => Ok(v),
        None => Err(CalcError::Overflow),
    }
}

/// The outcomes of statements evaluated in order against one environment,
/// and the environment after the last. A fault ends only its own statement.
pub open spec fn eval_all(ts: Seq<Tree>, env: Env) -> (Seq<Outcome>, Env)
    decreases ts.len(),
{
    if ts.len() == 0 {
        (Seq::empty(), env)
    } else {
        let (os, e1) = eval_all(ts.drop_last(), env);
        let (o, e2) = eval(ts.last(), e1);
        (os.push(o), e2)
    }
}

/// The map that a list of bindings stands for; a later binding of a name wins.
pub open spec fn env_of(v: Seq<(String, i128)>) -> Env
    decreases v.len(),
{
    if v.len() == 0 {
        Map::empty()
    } else {
        env_of(v.drop_last()).insert(v.last().0@, v.last().1)
    }
}

pub open spec fn unique_names(v: Seq<(String, i128)>) -> bool {
    forall|i: int, j: int| 0 <= i < j < v.len() ==> (#[trigger] v[i]).0@ != (#[trigger] v[j]).0@
}

proof fn lemma_env_absent(v: Seq<(String, i128)>, name: Seq<char>)
    requires
        forall|i: int| 0 <= i < v.len() ==> (#[trigger] v[i]).0@ != name,
    ensures
        !env_of(v).contains_key(name),
    decreases v.len(),
{
    if v.len() > 0 {
        lemma_env_absent(v.drop_last(), name);
    }
}

proof fn lemma_env_at(v: Seq<(String, i128)>, i: int)
    requires
        unique_names(v),
        0 <= i < v.len(),
    ensures
        env_of(v).contains_key(v[i].0@),
        env_of(v)[v[i].0@] == v[i].1,
    decreases v.len(),
{
    if i < v.len() - 1 {
        lemma_env_at(v.drop_last(), i);
    }
}

proof fn lemma_env_update(v: Seq<(String, i128)>, i: int, n: i128)
    requires
        unique_names(v),
        0 <= i < v.len(),
    ensures
        env_of(v.update(i, (v[i].0, n))) == env_of(v).insert(v[i].0@, n),
    decreases v.len(),
{
    let w = v.update(i, (v[i].0, n));
    if i == v.len() - 1 {
        assert(w.drop_last() =~= v.drop_last());
        lemma_env_absent(v.drop_last(), v[i].0@);
        assert(env_of(w) =~= env_of(v).insert(v[i].0@, n));
    } else {
        lemma_env_update(v.drop_last(), i, n);
        assert(w.drop_last() =~= v.drop_last().update(i, (v[i].0, n)));
        assert(env_of(w) =~= env_of(v).insert(v[i].0@, n));
    }
}

/// An evaluation session: the variables assigned so far.
pub struct Calculator {
    variables: Vec<(String, i128)>,
}

impl Calculator {
    /// The session's variables.
    pub closed spec fn view(&self) -> Env {
        env_of(self.variables@)
    }

    pub closed spec fn wf(&self) -> bool {
        unique_names(self.variables@)
    }

    pub fn new() -> (r: Calculator)
        ensures
            r.wf(),
            r@ == Map::<Seq<char>, i128>::empty(),
    {
        Calculator { variables: Vec::new() }
    }

    /// The value of a variable, or `UnknownVariable` naming it.
    fn get_value(&self, name: &String) -> (r: Result<Option<i128>, CalcError>)
        requires
            self.wf(),
        ensures
            outcome_of(r) == lookup(self@, name@),
    {
        let mut i: usize = 0;
        while i < self.variables.len()
            invariant
                self.wf(),
                i <= self.variables.len(),
                forall|j: int| 0 <= j < i ==> (#[trigger] self.variables@[j]).0@ != name@,
            decreases self.variables.len() - i,
        {
            if self.variables[i].0 == *name {
                proof {
                    lemma_env_at(self.variables@, i as int);
                }
                return Ok(Some(self.variables[i].1));
            }
            i = i + 1;
        }
        proof {
            lemma_env_absent(self.variables@, name@);
        }
        Err(CalcError::UnknownVariable(name.clone()))
    }

    /// Creates or overwrites the binding of `name`.
    fn set_value(&mut self, name: &String, n: i128)
        requires
            old(self).wf(),
        ensures
            final(self).wf(),
            final(self)@ == old(self)@.insert(name@, n),
    {
        let mut i: usize = 0;
        while i < self.variables.len()
            invariant
                self.wf(),
                self.variables == old(self).variables,
                i <= self.variables.len(),
                forall|j: int| 0 <= j < i ==> (#[trigger] self.variables@[j]).0@ != name@,
            decreases self.variables.len() - i,
        {
            if self.variables[i].0 == *name {
                let ghost v = self.variables@;
                let key = self.variables[i].0.clone();
                self.variables.set(i, (key, n));
                proof {
                    assert(self.variables@ =~= v.update(i as int, (v[i as int].0, n)));
                    lemma_env_update(v, i as int, n);
                }
                return;
            }
            i = i + 1;
        }
        let ghost v = self.variables@;
        self.variables.push((name.clone(), n));
        assert(self.variables@.drop_last() =~= v);
    }

    /// Negation of an evaluated operand.
    fn unary_op(o: Result<Option<i128>, CalcError>) -> (r: Result<Option<i128>, CalcError>)
        ensures
            outcome_of(r) == negate(outcome_of(o)),
    {
        match o {
            Ok(Some(v)) => match 0i128.checked_sub(v) {
                Some(w) => Ok(Some(w)),
                None => Err(CalcError::Overflow),
            },
            Ok(None) => Err(CalcError::WrongNodeTree),
            Err(e) => Err(e),
        }
    }

    /// Combines two evaluated operands under `op`.
    fn binary_op(
        a: Result<Option<i128>, CalcError>,
        b: Result<Option<i128>, CalcError>,
        op: Operator,
    ) -> (r: Result<Option<i128>, CalcError>)
        ensures
            outcome_of(r) == combine(op, outcome_of(a), outcome_of(b)),
    {
        match (a, b) {
            (Ok(Some(x)), Ok(Some(y))) => match operate(op, x, y) {
                Ok(v) => Ok(Some(v)),
                Err(e) => Err(e),
            },
            (Ok(_), Ok(_)) => Err(CalcError::WrongNodeTree),
            (Err(e), _) => Err(e),
            (_, Err(e)) => Err(e),
        }
    }

    /// Stores an evaluated value under the target variable.
    fn assign_value(&mut self, var: &Node, val: Result<Option<i128>, CalcError>) -> (r: Result<
        Option<i128>,
        CalcError,
    >)
        requires
            old(self).wf(),
        ensures
            final(self).wf(),
            (outcome_of(r), final(self)@) == assign(var@, outcome_of(val), old(self)@),
    {
        match (var, val) {
            (Node::Variable(_, name), Ok(Some(n))) => {
                self.set_value(name, n);
                Ok(None)
            },
            (_, Ok(_)) => Err(CalcError::WrongNodeTree),
            (_, Err(e)) => Err(e),
        }
    }

    /// Evaluates a tree against the session's variables; an assignment
    /// updates them and yields no value.
    pub fn process_node(&mut self, node: &Node) -> (r: Result<Option<i128>, CalcError>)
        requires
            old(self).wf(),
        ensures
            final(self).wf(),
            outcome_of(r) == eval(node@, old(self)@).0,
            final(self)@ == eval(node@, old(self)@).1,
        decreases node,
    {
        match node {
            Node::NumberLiteral(_, n) => Ok(Some(*n)),
            Node::Pi(_) => Ok(Some(3)),
            Node::Variable(_, name) => self.get_value(name),
            Node::RoundBrackets(_, c) => self.process_node(c),
            Node::UnaryMinus(_, c) => {
                let o = self.process_node(c);
                Self::unary_op(o)
            },
            Node::Add(_, a, b) => {
                let x = self.process_node(a);
                let y = self.process_node(b);
                Self::binary_op(x, y, Operator::Add)
            },
            Node::Subtract(_, a, b) => {
                let x = self.process_node(a);
                let y = self.process_node(b);
                Self::binary_op(x, y, Operator::Subtract)
            },
            Node::Multiply(_, a, b) => {
                let x = self.process_node(a);
                let y = self.process_node(b);
                Self::binary_op(x, y, Operator::Multiply)
            },
            Node::Divide(_, a, b) => {
                let x = self.process_node(a);
                let y = self.process_node(b);
                Self::binary_op(x, y, Operator::Divide)
            },
            Node::Power(_, a, b) => {
                let x = self.process_node(a);
                let y = self.process_node(b);
                Self::binary_op(x, y, Operator::Power)
            },
            Node::Assignment(_, var, val) => {
                let v = self.process_node(val);
                self.assign_value(var, v)
            },
        }
    }

    /// Evaluates one statement and returns the line to print for it, if any.
    pub fn process_statement(&mut self, node: &Node) -> (r: Option<String>)
        requires
            old(self).wf(),
        ensures
            final(self).wf(),
            final(self)@ == eval(node@, old(self)@).1,
            text_of(r) == report(node@, eval(node@, old(self)@).0),
    {
        let o = self.process_node(node);
        match o {
            Ok(None) => None,
            Ok(Some(n)) => {
                let mut out: Vec<char> = Vec::new();
                node.render_into(&mut out);
                push_str(&mut out, " = ");
                push_int(&mut out, n);
                push_str(&mut out, "; ");
                Some(string_from_chars(&out))
            },
            Err(e) => {
                let mut out: Vec<char> = Vec::new();
                let m = e.message();
                push_str(&mut out, m.as_str());
                push_str(&mut out, ". Context: '");
                node.render_into(&mut out);
                push_str(&mut out, "' ");
                Some(string_from_chars(&out))
            },
        }
    }

    /// Evaluates the statements in order; each one's outcome is kept, and a
    /// failing statement does not stop the ones after it.
    pub fn evaluate(&mut self, stmts: &Statements) -> (r: Vec<Result<Option<i128>, CalcError>>)
        requires
            old(self).wf(),
        ensures
            final(self).wf(),
            final(self)@ == eval_all(stmts@, old(self)@).1,
            r.len() == stmts@.len(),
            forall|i: int|
                0 <= i < r.len() ==> outcome_of(#[trigger] r@[i]) == eval_all(stmts@, old(self)@).0[i],
    {
        let mut r: Vec<Result<Option<i128>, CalcError>> = Vec::new();
        let n = stmts.0.len();
        let mut i: usize = 0;
        let ghost env0 = self@;
        while i < n
            invariant
                self.wf(),
                i <= n == stmts.0.len() == stmts@.len(),
                r.len() == i,
                eval_all(stmts@.take(i as int), env0).0.len() == i,
                self@ == eval_all(stmts@.take(i as int), env0).1,
                forall|j: int|
                    0 <= j < i ==> outcome_of(#[trigger] r@[j]) == eval_all(stmts@.take(i as int), env0).0[j],
            decreases n - i,
        {
            let ghost ts = stmts@.take(i + 1);
            assert(ts.drop_last() =~= stmts@.take(i as int));
            assert(ts.last() == stmts.0@[i as int].0@);
            let ghost prev = eval_all(stmts@.take(i as int), env0);
            let o = self.process_node(&stmts.0[i].0);
            let ghost out = outcome_of(o);
            let ghost before = r@;
            r.push(o);
            proof {
                assert(eval_all(ts, env0).0 == prev.0.push(out));
                assert forall|j: int| 0 <= j < i + 1 implies outcome_of(#[trigger] r@[j])
                    == eval_all(ts, env0).0[j] by {
                    if j < i {
                        assert(r@[j] == before[j]);
                        assert(outcome_of(before[j]) == prev.0[j]);
                    }
                }
            }
            i = i + 1;
        }
        assert(stmts@.take(n as int) =~= stmts@);
        r
    }

    /// The session's bindings, in no particular order.
    pub fn variables(&self) -> (r: Vec<(String, i128)>)
        requires
            self.wf(),
        ensures
            env_of(r@) == self@,
            unique_names(r@),
    {
        let mut r: Vec<(String, i128)> = Vec::new();
        let mut i: usize = 0;
        while i < self.variables.len()
            invariant
                i <= self.variables.len(),
                r@ =~= self.variables@.take(i as int),
            decreases self.variables.len() - i,
        {
            r.push((self.variables[i].0.clone(), self.variables[i].1));
            i = i + 1;
        }
        assert(self.variables@.take(i as int) =~= self.variables@);
        r
    }
}

} // verus!
