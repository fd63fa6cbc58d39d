use vstd::prelude::*;

use crate::lexer::string_from_chars;

verus! {

/// Start and end offsets of a node's source text.
#[derive(Clone, Copy, Debug, PartialEq, Eq, Structural)]
pub struct Loc(pub usize, pub usize);

/// An expression tree. `RoundBrackets` keeps the user's grouping for display
/// and is transparent to evaluation.
#[derive(Debug)]
pub enum Node {
    Multiply(Loc, Box<Node>, Box<Node>),
    Divide(Loc, Box<Node>, Box<Node>),
    Add(Loc, Box<Node>, Box<Node>),
    Subtract(Loc, Box<Node>, Box<Node>),
    Power(Loc, Box<Node>, Box<Node>),
    Assignment(Loc, Box<Node>, Box<Node>),
    Variable(Loc, String),
    NumberLiteral(Loc, i128),
    UnaryMinus(Loc, Box<Node>),
    RoundBrackets(Loc, Box<Node>),
    Pi(Loc),
}

/// One statement of a program.
#[derive(Debug)]
pub struct Statement(pub Node);

/// A parsed program: its statements in order.
#[derive(Debug)]
pub struct Statements(pub Vec<Statement>);

/// The mathematical value of a `Node`.
pub enum Tree {
    Multiply(Loc, Box<Tree>, Box<Tree>),
    Divide(Loc, Box<Tree>, Box<Tree>),
    Add(Loc, Box<Tree>, Box<Tree>),
    Subtract(Loc, Box<Tree>, Box<Tree>),
    Power(Loc, Box<Tree>, Box<Tree>),
    Assignment(Loc, Box<Tree>, Box<Tree>),
    Variable(Loc, Seq<char>),
    NumberLiteral(Loc, i128),
    UnaryMinus(Loc, Box<Tree>),
    RoundBrackets(Loc, Box<Tree>),
    Pi(Loc),
}

impl Node {
    pub open spec fn view(&self) -> Tree
        decreases self,
    {
        match self {
            Node::Multiply(l, a, b) => Tree::Multiply(*l, Box::new(a.view()), Box::new(b.view())),
            Node::Divide(l, a, b) => Tree::Divide(*l, Box::new(a.view()), Box::new(b.view())),
            Node::Add(l, a, b) => Tree::Add(*l, Box::new(a.view()), Box::new(b.view())),
            Node::Subtract(l, a, b) => Tree::Subtract(*l, Box::new(a.view()), Box::new(b.view())),
            Node::Power(l, a, b) => Tree::Power(*l, Box::new(a.view()), Box::new(b.view())),
            Node::Assignment(l, a, b) => Tree::Assignment(
                *l,
                Box::new(a.view()),
                Box::new(b.view()),
            ),
            Node::Variable(l, s) => Tree::Variable(*l, s@),
            Node::NumberLiteral(l, n) => Tree::NumberLiteral(*l, *n),
            Node::UnaryMinus(l, a) => Tree::UnaryMinus(*l, Box::new(a.view())),
            Node::RoundBrackets(l, a) => Tree::RoundBrackets(*l, Box::new(a.view())),
            Node::Pi(l) => Tree::Pi(*l),
        }
    }
}

impl Statement {
    pub open spec fn view(&self) -> Tree {
        self.0.view()
    }
}

impl Statements {
    pub open spec fn view(&self) -> Seq<Tree> {
        self.0@.map_values(|s: Statement| s.0.view())
    }
}

/// The span of a tree's root.
pub open spec fn loc_of(t: Tree) -> Loc {
    match t {
        Tree::Multiply(l, _, _) => l,
        Tree::Divide(l, _, _) => l,
        Tree::Add(l, _, _) => l,
        Tree::Subtract(l, _, _) => l,
        Tree::Power(l, _, _) => l,
        Tree::Assignment(l, _, _) => l,
        Tree::Variable(l, _) => l,
        Tree::NumberLiteral(l, _) => l,
        Tree::UnaryMinus(l, _) => l,
        Tree::RoundBrackets(l, _) => l,
        Tree::Pi(l) => l,
    }
}

impl Node {
    /// The span of this node.
    pub fn loc(&self) -> (r: Loc)
        ensures
            r == loc_of(self@),
    {
        match self {
            Node::Multiply(l, _, _) => *l,
            Node::Divide(l, _, _) => *l,
            Node::Add(l, _, _) => *l,
            Node::Subtract(l, _, _) => *l,
            Node::Power(l, _, _) => *l,
            Node::Assignment(l, _, _) => *l,
            Node::Variable(l, _) => *l,
            Node::NumberLiteral(l, _) => *l,
            Node::UnaryMinus(l, _) => *l,
            Node::RoundBrackets(l, _) => *l,
            Node::Pi(l) => *l,
        }
    }
}

pub open spec fn digit_char(d: nat) -> char {
    if d == 0 { '0' }
    else if d == 1 { '1' }
    else if d == 2 { '2' }
    else if d == 3 { '3' }
    else if d == 4 { '4' }
    else if d == 5 { '5' }
    else if d == 6 { '6' }
    else if d == 7 { '7' }
    else if d == 8 { '8' }
    else { '9' }
}

/// Decimal digits of `n`, most significant first, without leading zeros.
pub open spec fn nat_text(n: nat) -> Seq<char>
    decreases n,
{
    if n < 10 {
        seq![digit_char(n)]
    } else {
        nat_text(n / 10).push(digit_char(n % 10))
    }
}

/// Decimal text of an integer, with a leading `-` when negative.
pub open spec fn int_text(n: int) -> Seq<char> {
    if n < 0 {
        seq!['-'] + nat_text((-n) as nat)
    } else {
        nat_text(n as nat)
    }
}

/// Surface syntax of a tree: binary operators with one space on each side,
/// unary minus glued to its operand, brackets kept as written.
pub open spec fn render(t: Tree) -> Seq<char>
    decreases t,
{
    match t {
        Tree::Multiply(_, a, b) => render(*a) + seq![' ', '*', ' '] + render(*b),
        Tree::Divide(_, a, b) => render(*a) + seq![' ', '/', ' '] + render(*b),
        Tree::Add(_, a, b) => render(*a) + seq![' ', '+', ' '] + render(*b),
        Tree::Subtract(_, a, b) => render(*a) + seq![' ', '-', ' '] + render(*b),
        Tree::Power(_, a, b) => render(*a) + seq![' ', '*', '*', ' '] + render(*b),
        Tree::Assignment(_, a, b) => render(*a) + seq![' ', '=', ' '] + render(*b),
        Tree::Variable(_, s) => s,
        Tree::NumberLiteral(_, n) => int_text(n as int),
        Tree::UnaryMinus(_, a) => seq!['-'] + render(*a),
        Tree::RoundBrackets(_, a) => seq!['('] + render(*a) + seq![')'],
        Tree::Pi(_) => seq!['P', 'I'],
    }
}

/// A statement renders as its expression followed by `;`.
pub open spec fn render_statement(t: Tree) -> Seq<char> {
    render(t).push(';')
}

/// Statements render one after another, separated by single spaces.
pub open spec fn render_all(ts: Seq<Tree>) -> Seq<char>
    decreases ts.len(),
{
    if ts.len() == 0 {
        Seq::empty()
    } else if ts.len() == 1 {
        render_statement(ts[0])
    } else {
        render_all(ts.drop_last()).push(' ') + render_statement(ts.last())
    }
}

fn digit(d: u128) -> (c: char)
    requires
        d < 10,
    ensures
        c == digit_char(d as nat),
{
    if d == 0 { '0' }
    else if d == 1 { '1' }
    else if d == 2 { '2' }
    else if d == 3 { '3' }
    else if d == 4 { '4' }
    else if d == 5 { '5' }
    else if d == 6 { '6' }
    else if d == 7 { '7' }
    else if d == 8 { '8' }
    else { '9' }
}

fn push_nat(out: &mut Vec<char>, n: u128)
    ensures
        final(out)@ == old(out)@ + nat_text(n as nat),
    decreases n,
{
    if n >= 10 {
        push_nat(out, n / 10);
    }
    out.push(digit(n % 10));
    assert(final(out)@ =~= old(out)@ + nat_text(n as nat));
}

pub(crate) fn push_int(out: &mut Vec<char>, n: i128)
    ensures
        final(out)@ == old(out)@ + int_text(n as int),
{
    if n < 0 {
        out.push('-');
        let m: u128 = (-(n + 1)) as u128 + 1;
        push_nat(out, m);
        assert(final(out)@ =~= old(out)@ + int_text(n as int));
    } else {
        push_nat(out, n as u128);
    }
}

fn push_infix(out: &mut Vec<char>, op: char, double: bool)
    ensures
        final(out)@ == old(out)@ + (if double {
            seq![' ', op, op, ' ']
        } else {
            seq![' ', op, ' ']
        }),
{
    out.push(' ');
    out.push(op);
    if double {
        out.push(op);
    }
    out.push(' ');
    assert(final(out)@ =~= old(out)@ + (if double {
        seq![' ', op, op, ' ']
    } else {
        seq![' ', op, ' ']
    }));
}

pub(crate) fn push_str(out: &mut Vec<char>, s: &str)
    ensures
        final(out)@ == old(out)@ + s@,
{
    let ghost start = out@;
    for c in it: s.chars()
        invariant
            out@ == start + it.seq().take(it.index() as int),
    {
        out.push(c);
    }
    assert(out@ =~= start + s@);
}

fn push_all(out: &mut Vec<char>, s: &String)
    ensures
        final(out)@ == old(out)@ + s@,
{
    let ghost start = out@;
    for c in it: s.as_str().chars()
        invariant
            out@ == start + it.seq().take(it.index() as int),
    {
        out.push(c);
    }
    assert(out@ =~= start + s@);
}

impl Node {
    pub(crate) fn render_into(&self, out: &mut Vec<char>)
        ensures
            final(out)@ == old(out)@ + render(self@),
        decreases self,
    {
        let ghost start = out@;
        match self {
            Node::Multiply(_, a, b) => {
                a.render_into(out);
                push_infix(out, '*', false);
                b.render_into(out);
            },
            Node::Divide(_, a, b) => {
                a.render_into(out);
                push_infix(out, '/', false);
                b.render_into(out);
            },
            Node::Add(_, a, b) => {
                a.render_into(out);
                push_infix(out, '+', false);
                b.render_into(out);
            },
            Node::Subtract(_, a, b) => {
                a.render_into(out);
                push_infix(out, '-', false);
                b.render_into(out);
            },
            Node::Power(_, a, b) => {
                a.render_into(out);
                push_infix(out, '*', true);
                b.render_into(out);
            },
            Node::Assignment(_, a, b) => {
                a.render_into(out);
                push_infix(out, '=', false);
                b.render_into(out);
            },
            Node::Variable(_, s) => {
                push_all(out, s);
            },
            Node::NumberLiteral(_, n) => {
                push_int(out, *n);
            },
            Node::UnaryMinus(_, a) => {
                out.push('-');
                a.render_into(out);
            },
            Node::RoundBrackets(_, a) => {
                out.push('(');
                a.render_into(out);
                out.push(')');
            },
            Node::Pi(_) => {
                out.push('P');
                out.push('I');
            },
        }
        assert(out@ =~= start + render(self@));
    }

    /// The surface syntax of this expression.
    pub fn to_string(&self) -> (r: String)
        ensures
            r@ == render(self@),
    {
        let mut out: Vec<char> = Vec::new();
        self.render_into(&mut out);
        assert(out@ =~= render(self@));
        string_from_chars(&out)
    }
}

impl Statement {
    /// The surface syntax of this statement, ending in `;`.
    pub fn to_string(&self) -> (r: String)
        ensures
            r@ == render_statement(self@),
    {
        let mut out: Vec<char> = Vec::new();
        self.0.render_into(&mut out);
        out.push(';');
        assert(out@ =~= render_statement(self@));
        string_from_chars(&out)
    }
}

impl Statements {
    /// The surface syntax of the program: each statement ends in `;`, and
    /// statements are separated by one space.
    pub fn to_string(&self) -> (r: String)
        ensures
            r@ == render_all(self@),
    {
        let mut out: Vec<char> = Vec::new();
        let n = self.0.len();
        let mut i: usize = 0;
        while i < n
            invariant
                i <= n == self.0.len(),
                out@ == render_all(self@.take(i as int)),
            decreases n - i,
        {
            let ghost before = out@;
            if i > 0 {
                out.push(' ');
            }
            self.0[i].0.render_into(&mut out);
            out.push(';');
            proof {
                let ts = self@.take(i + 1);
                assert(ts.drop_last() =~= self@.take(i as int));
                assert(ts.last() == self.0@[i as int].0@);
                if i == 0 {
                    assert(ts.len() == 1);
                    assert(out@ =~= render_all(ts));
                } else {
                    assert(out@ =~= render_all(ts));
                }
            }
            i = i + 1;
        }
        assert(self@.take(n as int) =~= self@);
        string_from_chars(&out)
    }
}

} // verus!
