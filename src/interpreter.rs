use vstd::prelude::*;
use crate::ast::{Expr, Node, VarType, nodes};
use crate::tokens::{Token, Tok};

verus! {

/// The type a variable was declared with, as the environment keeps it.
#[derive(Debug, Clone, Copy, PartialEq, Eq, Structural)]
pub enum VarInfo {
    Int,
    StringType,
}

/// An arithmetic operation on two numbers.
#[derive(Debug, Clone, Copy, PartialEq, Eq, Structural)]
pub enum NumOp {
    Add,
    Sub,
    Mul,
    Div,
}

/// A number computed by a program. Numbers are double-precision floats,
/// kept as a graph: a node is a numeral or an operation on two earlier
/// nodes, and the host that displays a value computes it from there.
#[derive(Debug)]
pub enum NumNode {
    Literal(String),
    Apply(NumOp, usize, usize),
}

/// A part of a string value: text, or a number shown in its shortest
/// round-trip decimal form.
#[derive(Debug)]
pub enum Piece {
    Text(String),
    Num(usize),
}

/// A runtime value. A number is the index of its node.
#[derive(Debug)]
pub enum Value {
    Number(usize),
    String(Vec<Piece>),
}

/// A variable of the environment.
#[derive(Debug)]
pub struct Binding {
    pub name: String,
    pub info: VarInfo,
    pub value: Value,
}

/// Why evaluation stopped.
#[derive(Debug)]
pub enum RuntimeError {
    AlreadyDefined(String),
    UndefinedVariable(String),
    /// A value of the wrong kind for the variable's declared type.
    TypeMismatch { name: String, expected: VarInfo },
    /// `-`, `*` or `/` on an operand that is not a number.
    UnsupportedOperands(NumOp),
    UnknownOperator,
    /// A statement stood where a value was needed.
    MissingValue,
}

pub enum NumNodeV {
    Literal(Seq<char>),
    Apply(NumOp, int, int),
}

pub enum PieceV {
    Text(Seq<char>),
    Num(int),
}

pub enum ValueV {
    Number(int),
    Str(Seq<PieceV>),
}

pub struct BindingV {
    pub name: Seq<char>,
    pub info: VarInfo,
    pub value: ValueV,
}

pub enum ErrorV {
    AlreadyDefined(Seq<char>),
    UndefinedVariable(Seq<char>),
    TypeMismatch(Seq<char>, VarInfo),
    UnsupportedOperands(NumOp),
    UnknownOperator,
    MissingValue,
}

/// The model of an interpreter: environment, number graph and printed values.
pub struct State {
    pub env: Seq<BindingV>,
    pub numbers: Seq<NumNodeV>,
    pub output: Seq<ValueV>,
}

impl View for NumNode {
    type V = NumNodeV;

    open spec fn view(&self) -> NumNodeV {
        match self {
            NumNode::Literal(s) => NumNodeV::Literal(s@),
            NumNode::Apply(op, a, b) => NumNodeV::Apply(*op, *a as int, *b as int),
        }
    }
}

impl View for Piece {
    type V = PieceV;

    open spec fn view(&self) -> PieceV {
        match self {
            Piece::Text(s) => PieceV::Text(s@),
            Piece::Num(i) => PieceV::Num(*i as int),
        }
    }
}

pub open spec fn pieces(v: Seq<Piece>) -> Seq<PieceV> {
    v.map_values(|p: Piece| p@)
}

impl View for Value {
    type V = ValueV;

    open spec fn view(&self) -> ValueV {
        match self {
            Value::Number(i) => ValueV::Number(*i as int),
            Value::String(p) => ValueV::Str(pieces(p@)),
        }
    }
}

impl View for Binding {
    type V = BindingV;

    open spec fn view(&self) -> BindingV {
        BindingV { name: self.name@, info: self.info, value: self.value@ }
    }
}

impl View for RuntimeError {
    type V = ErrorV;

    open spec fn view(&self) -> ErrorV {
        match self {
            RuntimeError::AlreadyDefined(n) => ErrorV::AlreadyDefined(n@),
            RuntimeError::UndefinedVariable(n) => ErrorV::UndefinedVariable(n@),
            RuntimeError::TypeMismatch { name, expected } => ErrorV::TypeMismatch(name@, *expected),
            RuntimeError::UnsupportedOperands(op) => ErrorV::UnsupportedOperands(*op),
            RuntimeError::UnknownOperator => ErrorV::UnknownOperator,
            RuntimeError::MissingValue => ErrorV::MissingValue,
        }
    }
}

pub open spec fn values(v: Seq<Value>) -> Seq<ValueV> {
    v.map_values(|x: Value| x@)
}

pub open spec fn result_view(r: Result<Option<Value>, RuntimeError>) -> Result<Option<ValueV>, ErrorV> {
    match r {
        Ok(Some(v)) => Ok(Some(v@)),
        Ok(None) => Ok(None),
        Err(e) => Err(e@),
    }
}

pub open spec fn declared(env: Seq<BindingV>, n: Seq<char>) -> bool {
    exists|i: int| 0 <= i < env.len() && env[i].name == n
}

/// Where a declared name is bound; names are distinct, so the place is unique.
pub open spec fn index_of(env: Seq<BindingV>, n: Seq<char>) -> int {
    choose|i: int| 0 <= i < env.len() && env[i].name == n
}

pub open spec fn distinct_names(env: Seq<BindingV>) -> bool {
    forall|i: int, j: int| 0 <= i < j < env.len() ==> env[i].name != env[j].name
}

pub open spec fn info_of(t: VarType) -> VarInfo {
    match t {
        VarType::Int => VarInfo::Int,
        VarType::StringType => VarInfo::StringType,
    }
}

/// Whether a value may be stored in a variable of the given type.
pub open spec fn fits(info: VarInfo, v: ValueV) -> bool {
    match (info, v) {
        (VarInfo::Int, ValueV::Number(_)) => true,
        (VarInfo::StringType, ValueV::Str(_)) => true,
        _ => false,
    }
}

pub type Step = (State, Result<Option<ValueV>, ErrorV>);

/// A new number node; the value is its index.
pub open spec fn with_number(s: State, n: NumNodeV) -> Step {
    (
        State { numbers: s.numbers.push(n), ..s },
        Ok(Some(ValueV::Number(s.numbers.len() as int))),
    )
}

/// `+`: numeric sum, or concatenation where either side is a string.
pub open spec fn concat_or_sum(s: State, a: ValueV, b: ValueV) -> Step {
    match (a, b) {
        (ValueV::Number(x), ValueV::Number(y)) => with_number(s, NumNodeV::Apply(NumOp::Add, x, y)),
        (ValueV::Str(x), ValueV::Str(y)) => (s, Ok(Some(ValueV::Str(x + y)))),
        (ValueV::Str(x), ValueV::Number(y)) => (s, Ok(Some(ValueV::Str(x.push(PieceV::Num(y)))))),
        (ValueV::Number(x), ValueV::Str(y)) => (s, Ok(Some(ValueV::Str(seq![PieceV::Num(x)] + y)))),
    }
}

/// `-`, `*`, `/`: defined on two numbers only.
pub open spec fn arith(s: State, op: NumOp, a: ValueV, b: ValueV) -> Step {
    match (a, b) {
        (ValueV::Number(x), ValueV::Number(y)) => with_number(s, NumNodeV::Apply(op, x, y)),
        _ => (s, Err(ErrorV::UnsupportedOperands(op))),
    }
}

pub open spec fn apply(s: State, op: Tok, a: ValueV, b: ValueV) -> Step {
    match op {
        Tok::Plus => concat_or_sum(s, a, b),
        Tok::Minus => arith(s, NumOp::Sub, a, b),
        Tok::Star => arith(s, NumOp::Mul, a, b),
        Tok::Slash => arith(s, NumOp::Div, a, b),
        _ => (s, Err(ErrorV::UnknownOperator)),
    }
}

/// Evaluation of one node: the state after it, and its value, if it has one,
/// or the error that stopped it (the state then holds what was done before).
pub open spec fn eval(s: State, e: Node) -> Step
    decreases e,
{
    match e {
        Node::VarDeclaration { var_type, name, value } => {
            if declared(s.env, name) {
                (s, Err(ErrorV::AlreadyDefined(name)))
            } else {
                let (s1, r) = eval(s, *value);
                match r {
                    Err(x) => (s1, Err(x)),
                    Ok(None) => (s1, Err(ErrorV::MissingValue)),
                    Ok(Some(v)) => if declared(s1.env, name) {
                        (s1, Err(ErrorV::AlreadyDefined(name)))
                    } else if !fits(info_of(var_type), v) {
                        (s1, Err(ErrorV::TypeMismatch(name, info_of(var_type))))
                    } else {
                        (
                            State {
                                env: s1.env.push(BindingV { name, info: info_of(var_type), value: v }),
                                ..s1
                            },
                            Ok(None),
                        )
                    },
                }
            }
        },
        Node::Number(x) => with_number(s, NumNodeV::Literal(x)),
        Node::Str(x) => (s, Ok(Some(ValueV::Str(seq![PieceV::Text(x)])))),
        Node::Binary { left, operator, right } => {
            let (s1, r1) = eval(s, *left);
            match r1 {
                Err(x) => (s1, Err(x)),
                Ok(None) => (s1, Ok(None)),
                Ok(Some(a)) => {
                    let (s2, r2) = eval(s1, *right);
                    match r2 {
                        Err(x) => (s2, Err(x)),
                        Ok(None) => (s2, Ok(None)),
                        Ok(Some(b)) => apply(s2, operator, a, b),
                    }
                },
            }
        },
        Node::Variable(n) => if declared(s.env, n) {
            (s, Ok(Some(s.env[index_of(s.env, n)].value)))
        } else {
            (s, Err(ErrorV::UndefinedVariable(n)))
        },
        Node::Assignment { name, value } => {
            let (s1, r) = eval(s, *value);
            match r {
                Err(x) => (s1, Err(x)),
                Ok(None) => (s1, Err(ErrorV::MissingValue)),
                Ok(Some(v)) => if !declared(s1.env, name) {
                    (s1, Err(ErrorV::UndefinedVariable(name)))
                } else {
                    let i = index_of(s1.env, name);
                    let info = s1.env[i].info;
                    if !fits(info, v) {
                        (s1, Err(ErrorV::TypeMismatch(name, info)))
                    } else {
                        (State { env: s1.env.update(i, BindingV { name, info, value: v }), ..s1 }, Ok(None))
                    }
                },
            }
        },
        Node::Print(x) => {
            let (s1, r) = eval(s, *x);
            match r {
                Err(e) => (s1, Err(e)),
                Ok(None) => (s1, Err(ErrorV::MissingValue)),
                Ok(Some(v)) => (State { output: s1.output.push(v), ..s1 }, Ok(None)),
            }
        },
    }
}

/// Every number a value mentions is a node below `n`.
pub open spec fn refers_within(v: ValueV, n: int) -> bool {
    match v {
        ValueV::Number(i) => 0 <= i < n,
        ValueV::Str(ps) => forall|k: int|
            0 <= k < ps.len() && (#[trigger] ps[k]) is Num ==> 0 <= ps[k]->Num_0 < n,
    }
}

/// Each operation node uses earlier nodes only.
pub open spec fn graph_ok(nums: Seq<NumNodeV>) -> bool {
    forall|k: int|
        0 <= k < nums.len() && (#[trigger] nums[k]) is Apply ==> 0 <= nums[k]->Apply_1 < k && 0
            <= nums[k]->Apply_2 < k
}

/// A consistent state: names are distinct, the number graph is acyclic, and
/// every value held or printed mentions existing nodes only.
pub open spec fn state_ok(s: State) -> bool {
    &&& distinct_names(s.env)
    &&& graph_ok(s.numbers)
    &&& forall|i: int| 0 <= i < s.env.len() ==> refers_within(#[trigger] s.env[i].value, s.numbers.len() as int)
    &&& forall|i: int| 0 <= i < s.output.len() ==> refers_within(#[trigger] s.output[i], s.numbers.len() as int)
}

proof fn lemma_refers_grow(v: ValueV, n: int, m: int)
    requires
        refers_within(v, n),
        n <= m,
    ensures
        refers_within(v, m),
{
}

proof fn lemma_grow_state(s: State, nums: Seq<NumNodeV>)
    requires
        state_ok(s),
        graph_ok(nums),
        s.numbers.len() <= nums.len(),
    ensures
        state_ok(State { numbers: nums, ..s }),
{
    assert forall|i: int| 0 <= i < s.env.len() implies refers_within(#[trigger] s.env[i].value, nums.len() as int) by {
        lemma_refers_grow(s.env[i].value, s.numbers.len() as int, nums.len() as int);
    }
    assert forall|i: int| 0 <= i < s.output.len() implies refers_within(#[trigger] s.output[i], nums.len() as int) by {
        lemma_refers_grow(s.output[i], s.numbers.len() as int, nums.len() as int);
    }
}

proof fn lemma_with_number(s: State, n: NumNodeV)
    requires
        state_ok(s),
        n is Apply ==> 0 <= n->Apply_1 < s.numbers.len() && 0 <= n->Apply_2 < s.numbers.len(),
    ensures
        state_ok(with_number(s, n).0),
        refers_within(with_number(s, n).1->Ok_0->Some_0, with_number(s, n).0.numbers.len() as int),
{
    let nums = s.numbers.push(n);
    assert forall|k: int| 0 <= k < nums.len() && (#[trigger] nums[k]) is Apply implies 0 <= nums[k]->Apply_1 < k
        && 0 <= nums[k]->Apply_2 < k by {
        if k < s.numbers.len() {
            assert(nums[k] == s.numbers[k]);
        }
    }
    lemma_grow_state(s, nums);
}

/// Evaluation keeps the state consistent, lets the number graph only grow,
/// and yields values that mention existing nodes only.
pub proof fn lemma_eval_ok(s: State, e: Node)
    requires
        state_ok(s),
    ensures
        state_ok(eval(s, e).0),
        s.numbers.len() <= eval(s, e).0.numbers.len(),
        eval(s, e).1 matches Ok(Some(v)) ==> refers_within(v, eval(s, e).0.numbers.len() as int),
    decreases e,
{
    match e {
        Node::VarDeclaration { var_type, name, value } => {
            lemma_eval_ok(s, *value);
            let s1 = eval(s, *value).0;
            let r = eval(s, *value).1;
            if !declared(s.env, name) && r is Ok && r->Ok_0 is Some && !declared(s1.env, name) && fits(
                info_of(var_type),
                r->Ok_0->Some_0,
            ) {
                let b = BindingV { name, info: info_of(var_type), value: r->Ok_0->Some_0 };
                let env = s1.env.push(b);
                assert forall|i: int, j: int| 0 <= i < j < env.len() implies env[i].name != env[j].name by {
                    if j == env.len() - 1 {
                        assert(s1.env[i].name != name);
                    }
                }
                assert forall|i: int| 0 <= i < env.len() implies refers_within(#[trigger] env[i].value, s1.numbers.len() as int) by {
                    if i < s1.env.len() {
                        assert(env[i] == s1.env[i]);
                    }
                }
            }
        },
        Node::Number(x) => {
            lemma_with_number(s, NumNodeV::Literal(x));
        },
        Node::Str(x) => {},
        Node::Binary { left, operator, right } => {
            lemma_eval_ok(s, *left);
            let s1 = eval(s, *left).0;
            lemma_eval_ok(s1, *right);
            let s2 = eval(s1, *right).0;
            if let Ok(Some(a)) = eval(s, *left).1 {
                if let Ok(Some(b)) = eval(s1, *right).1 {
                    lemma_refers_grow(a, s1.numbers.len() as int, s2.numbers.len() as int);
                    match (a, b) {
                        (ValueV::Number(x), ValueV::Number(y)) => {
                            lemma_with_number(s2, NumNodeV::Apply(NumOp::Add, x, y));
                            lemma_with_number(s2, NumNodeV::Apply(NumOp::Sub, x, y));
                            lemma_with_number(s2, NumNodeV::Apply(NumOp::Mul, x, y));
                            lemma_with_number(s2, NumNodeV::Apply(NumOp::Div, x, y));
                        },
                        (ValueV::Str(x), ValueV::Str(y)) => {
                            let z = x + y;
                            assert forall|k: int| 0 <= k < z.len() && (#[trigger] z[k]) is Num implies 0 <= z[k]->Num_0
                                < s2.numbers.len() by {
                                if k < x.len() {
                                    assert(z[k] == x[k]);
                                } else {
                                    assert(z[k] == y[k - x.len()]);
                                }
                            }
                        },
                        (ValueV::Str(x), ValueV::Number(y)) => {
                            let z = x.push(PieceV::Num(y));
                            assert forall|k: int| 0 <= k < z.len() && (#[trigger] z[k]) is Num implies 0 <= z[k]->Num_0
                                < s2.numbers.len() by {
                                if k < x.len() {
                                    assert(z[k] == x[k]);
                                }
                            }
                        },
                        (ValueV::Number(x), ValueV::Str(y)) => {
                            let z = seq![PieceV::Num(x)] + y;
                            assert forall|k: int| 0 <= k < z.len() && (#[trigger] z[k]) is Num implies 0 <= z[k]->Num_0
                                < s2.numbers.len() by {
                                if k > 0 {
                                    assert(z[k] == y[k - 1]);
                                }
                            }
                        },
                    }
                }
            }
        },
        Node::Variable(n) => {
            if declared(s.env, n) {
                let i = index_of(s.env, n);
                assert(refers_within(s.env[i].value, s.numbers.len() as int));
            }
        },
        Node::Assignment { name, value } => {
            lemma_eval_ok(s, *value);
            let s1 = eval(s, *value).0;
            let r = eval(s, *value).1;
            if r is Ok && r->Ok_0 is Some && declared(s1.env, name) {
                let i = index_of(s1.env, name);
                let b = BindingV { name, info: s1.env[i].info, value: r->Ok_0->Some_0 };
                let env = s1.env.update(i, b);
                assert forall|p: int, q: int| 0 <= p < q < env.len() implies env[p].name != env[q].name by {
                    assert(s1.env[p].name != s1.env[q].name);
                }
                assert forall|j: int| 0 <= j < env.len() implies refers_within(#[trigger] env[j].value, s1.numbers.len() as int) by {
                    if j != i {
                        assert(env[j] == s1.env[j]);
                    }
                }
            }
        },
        Node::Print(x) => {
            lemma_eval_ok(s, *x);
            let s1 = eval(s, *x).0;
            if let Ok(Some(v)) = eval(s, *x).1 {
                let out = s1.output.push(v);
                assert forall|j: int| 0 <= j < out.len() implies refers_within(#[trigger] out[j], s1.numbers.len() as int) by {
                    if j < s1.output.len() {
                        assert(out[j] == s1.output[j]);
                    }
                }
            }
        },
    }
}

/// Runs statements in order, stopping at the first error.
pub open spec fn run(s: State, stmts: Seq<Node>) -> (State, Result<(), ErrorV>)
    decreases stmts.len(),
{
    if stmts.len() == 0 {
        (s, Ok(()))
    } else {
        let (s1, r) = eval(s, stmts[0]);
        match r {
            Err(e) => (s1, Err(e)),
            Ok(_) => run(s1, stmts.drop_first()),
        }
    }
}

/// A copy of a value.
pub fn copy_value(v: &Value) -> (r: Value)
    ensures
        r@ == v@,
{
    match v {
        Value::Number(i) => Value::Number(*i),
        Value::String(ps) => {
            let mut out: Vec<Piece> = Vec::new();
            let mut k: usize = 0;
            while k < ps.len()
                invariant
                    k <= ps.len(),
                    pieces(out@) == pieces(ps@).take(k as int),
                decreases ps.len() - k,
            {
                let p = match &ps[k] {
                    Piece::Text(s) => Piece::Text(s.clone()),
                    Piece::Num(i) => Piece::Num(*i),
                };
                let ghost before = pieces(out@);
                out.push(p);
                assert(pieces(out@) =~= before.push(p@));
                assert(pieces(ps@).take(k + 1) =~= pieces(ps@).take(k as int).push(p@));
                k = k + 1;
            }
            assert(pieces(ps@).take(ps.len() as int) =~= pieces(ps@));
            Value::String(out)
        },
    }
}

fn info_from(t: VarType) -> (r: VarInfo)
    ensures
        r == info_of(t),
{
    match t {
        VarType::Int => VarInfo::Int,
        VarType::StringType => VarInfo::StringType,
    }
}

fn value_fits(info: VarInfo, v: &Value) -> (r: bool)
    ensures
        r == fits(info, v@),
{
    match (info, v) {
        (VarInfo::Int, Value::Number(_)) => true,
        (VarInfo::StringType, Value::String(_)) => true,
        _ => false,
    }
}

/// A tree-walking evaluator over a persistent environment.
pub struct Interpreter {
    pub environment: Vec<Binding>,
    pub numbers: Vec<NumNode>,
    pub output: Vec<Value>,
}

impl View for Interpreter {
    type V = State;

    open spec fn view(&self) -> State {
        State {
            env: self.environment@.map_values(|b: Binding| b@),
            numbers: self.numbers@.map_values(|n: NumNode| n@),
            output: values(self.output@),
        }
    }
}

impl Interpreter {
    pub open spec fn wf(&self) -> bool {
        state_ok(self@)
    }

    /// Each name is bound at most once.
    pub open spec fn names_ok(&self) -> bool {
        distinct_names(self@.env)
    }

    pub fn new() -> (r: Interpreter)
        ensures
            r.wf(),
            r@.env.len() == 0,
            r@.numbers.len() == 0,
            r@.output.len() == 0,
    {
        Interpreter { environment: Vec::new(), numbers: Vec::new(), output: Vec::new() }
    }

    /// Runs statements in order; stops at the first error, keeping what was
    /// done before it.
    pub fn interpret(&mut self, expressions: Vec<Expr>) -> (r: Result<(), RuntimeError>)
        requires
            old(self).wf(),
        ensures
            final(self).wf(),
            run(old(self)@, nodes(expressions@)) == (final(self)@, match r {
                Ok(()) => Ok::<(), ErrorV>(()),
                Err(e) => Err(e@),
            }),
    {
        let mut rest = expressions;
        while rest.len() > 0
            invariant
                self.wf(),
                run(old(self)@, nodes(expressions@)) == run(self@, nodes(rest@)),
            decreases rest.len(),
        {
            let ghost ns = nodes(rest@);
            let expr = rest.remove(0);
            assert(nodes(rest@) =~= ns.drop_first());
            match self.evaluate(expr) {
                Ok(_) => {},
                Err(e) => {
                    return Err(e);
                },
            }
        }
        Ok(())
    }

    /// Takes the values printed so far, in order.
    pub fn take_output(&mut self) -> (r: Vec<Value>)
        ensures
            values(r@) == old(self)@.output,
            final(self)@ == (State { output: Seq::empty(), ..old(self)@ }),
            old(self).wf() ==> final(self).wf(),
            old(self).wf() ==> forall|i: int| 0 <= i < r@.len()
                ==> refers_within(#[trigger] r@[i]@, final(self)@.numbers.len() as int),
    {
        let mut r: Vec<Value> = Vec::new();
        r.append(&mut self.output);
        assert(values(self.output@) =~= Seq::<ValueV>::empty());
        assert(values(r@) =~= old(self)@.output);
        proof {
            if old(self).wf() {
                assert forall|i: int| 0 <= i < r@.len() implies refers_within(
                    #[trigger] r@[i]@,
                    self@.numbers.len() as int,
                ) by {
                    assert(values(r@)[i] == r@[i]@);
                    assert(old(self)@.output[i] == values(r@)[i]);
                }
            }
        }
        r
    }

    fn find(&self, name: &String) -> (r: Option<usize>)
        requires
            self.names_ok(),
        ensures
            match r {
                Some(i) => declared(self@.env, name@) && i == index_of(self@.env, name@)
                    && i < self.environment.len(),
                None => !declared(self@.env, name@),
            },
    {
        let mut i: usize = 0;
        while i < self.environment.len()
            invariant
                self.names_ok(),
                i <= self.environment.len(),
                forall|j: int| 0 <= j < i ==> self@.env[j].name != name@,
            decreases self.environment.len() - i,
        {
            if self.environment[i].name.eq(name) {
                assert(self@.env[i as int].name == name@);
                let ghost k = index_of(self@.env, name@);
                assert(self@.env[k].name == self@.env[i as int].name);
                assert(k == i) by {
                    if k < i {
                        assert(self@.env[k].name != self@.env[i as int].name);
                    } else if k > i {
                        assert(self@.env[i as int].name != self@.env[k].name);
                    }
                }
                return Some(i);
            }
            i = i + 1;
        }
        None
    }

    /// Evaluates one node against the environment.
    fn evaluate(&mut self, expr: Expr) -> (r: Result<Option<Value>, RuntimeError>)
        requires
            old(self).wf(),
        ensures
            final(self).wf(),
            (final(self)@, result_view(r)) == eval(old(self)@, expr@),
        decreases expr,
    {
        proof {
            lemma_eval_ok(old(self)@, expr@);
        }
        match expr {
            Expr::VarDeclaration { var_type, name, value } => {
                if self.find(&name).is_some() {
                    return Err(RuntimeError::AlreadyDefined(name));
                }
                let val = match self.evaluate(*value) {
                    Ok(Some(v)) => v,
                    Ok(None) => {
                        return Err(RuntimeError::MissingValue);
                    },
                    Err(e) => {
                        return Err(e);
                    },
                };
                if self.find(&name).is_some() {
                    return Err(RuntimeError::AlreadyDefined(name));
                }
                let info = info_from(var_type);
                if !value_fits(info, &val) {
                    return Err(RuntimeError::TypeMismatch { name, expected: info });
                }
                self.declare(name, info, val);
                Ok(None)
            },
            Expr::Number(x) => self.push_number(NumNode::Literal(x)),
            Expr::String(x) => {
                let ghost xv = x@;
                let mut ps: Vec<Piece> = Vec::new();
                ps.push(Piece::Text(x));
                assert(pieces(ps@) =~= seq![PieceV::Text(xv)]);
                Ok(Some(Value::String(ps)))
            },
            Expr::Binary { left, operator, right } => {
                let left_val = match self.evaluate(*left) {
                    Ok(Some(v)) => v,
                    Ok(None) => {
                        return Ok(None);
                    },
                    Err(e) => {
                        return Err(e);
                    },
                };
                let right_val = match self.evaluate(*right) {
                    Ok(Some(v)) => v,
                    Ok(None) => {
                        return Ok(None);
                    },
                    Err(e) => {
                        return Err(e);
                    },
                };
                match operator {
                    Token::Plus => self.evaluate_add(left_val, right_val),
                    Token::Minus => self.evaluate_subtract(left_val, right_val),
                    Token::Star => self.evaluate_multiply(left_val, right_val),
                    Token::Slash => self.evaluate_divide(left_val, right_val),
                    _ => Err(RuntimeError::UnknownOperator),
                }
            },
            Expr::Variable(name) => match self.find(&name) {
                Some(i) => Ok(Some(copy_value(&self.environment[i].value))),
                None => Err(RuntimeError::UndefinedVariable(name)),
            },
            Expr::Assignment { name, value } => {
                let val = match self.evaluate(*value) {
                    Ok(Some(v)) => v,
                    Ok(None) => {
                        return Err(RuntimeError::MissingValue);
                    },
                    Err(e) => {
                        return Err(e);
                    },
                };
                match self.find(&name) {
                    Some(i) => {
                        let info = self.environment[i].info;
                        if !value_fits(info, &val) {
                            return Err(RuntimeError::TypeMismatch { name, expected: info });
                        }
                        self.store(i, val);
                        Ok(None)
                    },
                    None => Err(RuntimeError::UndefinedVariable(name)),
                }
            },
            Expr::Print(inner) => {
                let val = match self.evaluate(*inner) {
                    Ok(Some(v)) => v,
                    Ok(None) => {
                        return Err(RuntimeError::MissingValue);
                    },
                    Err(e) => {
                        return Err(e);
                    },
                };
                let ghost vv = val@;
                let ghost s1 = self@;
                self.output.push(val);
                assert(self@.output =~= s1.output.push(vv));
                assert(self@.env =~= s1.env);
                assert(self@.numbers =~= s1.numbers);
                Ok(None)
            },
        }
    }

    fn declare(&mut self, name: String, info: VarInfo, value: Value)
        requires
            old(self).names_ok(),
            !declared(old(self)@.env, name@),
        ensures
            final(self).names_ok(),
            final(self)@ == (State {
                env: old(self)@.env.push(BindingV { name: name@, info, value: value@ }),
                ..old(self)@
            }),
    {
        let ghost b = BindingV { name: name@, info, value: value@ };
        self.environment.push(Binding { name, info, value });
        assert(self@.env =~= old(self)@.env.push(b));
        assert(self@.numbers =~= old(self)@.numbers);
        assert(self@.output =~= old(self)@.output);
        assert forall|i: int, j: int| 0 <= i < j < self@.env.len() implies self@.env[i].name != self@.env[j].name by {
            if j == self@.env.len() - 1 {
                assert(old(self)@.env[i].name != name@);
            }
        }
    }

    fn store(&mut self, i: usize, value: Value)
        requires
            old(self).names_ok(),
            i < old(self).environment.len(),
        ensures
            final(self).names_ok(),
            final(self)@ == (State {
                env: old(self)@.env.update(
                    i as int,
                    BindingV { name: old(self)@.env[i as int].name, info: old(self)@.env[i as int].info, value: value@ },
                ),
                ..old(self)@
            }),
    {
        let b = Binding { name: self.environment[i].name.clone(), info: self.environment[i].info, value };
        let ghost bv = b@;
        self.environment.set(i, b);
        assert(self@.env =~= old(self)@.env.update(i as int, bv));
        assert(self@.numbers =~= old(self)@.numbers);
        assert(self@.output =~= old(self)@.output);
    }

    fn push_number(&mut self, n: NumNode) -> (r: Result<Option<Value>, RuntimeError>)
        requires
            old(self).names_ok(),
        ensures
            final(self).names_ok(),
            (final(self)@, result_view(r)) == with_number(old(self)@, n@),
    {
        let i = self.numbers.len();
        let ghost nn = n@;
        self.numbers.push(n);
        assert(self@.numbers =~= old(self)@.numbers.push(nn));
        assert(self@.env =~= old(self)@.env);
        Ok(Some(Value::Number(i)))
    }

    fn evaluate_add(&mut self, left: Value, right: Value) -> (r: Result<Option<Value>, RuntimeError>)
        requires
            old(self).names_ok(),
        ensures
            final(self).names_ok(),
            (final(self)@, result_view(r)) == concat_or_sum(old(self)@, left@, right@),
    {
        match (left, right) {
            (Value::Number(a), Value::Number(b)) => self.push_number(NumNode::Apply(NumOp::Add, a, b)),
            (Value::String(mut a), Value::String(mut b)) => {
                let ghost (x, y) = (pieces(a@), pieces(b@));
                a.append(&mut b);
                assert(pieces(a@) =~= x + y);
                Ok(Some(Value::String(a)))
            },
            (Value::String(mut a), Value::Number(b)) => {
                let ghost x = pieces(a@);
                a.push(Piece::Num(b));
                assert(pieces(a@) =~= x.push(PieceV::Num(b as int)));
                Ok(Some(Value::String(a)))
            },
            (Value::Number(a), Value::String(mut b)) => {
                let ghost y = pieces(b@);
                b.insert(0, Piece::Num(a));
                assert(pieces(b@) =~= seq![PieceV::Num(a as int)] + y);
                Ok(Some(Value::String(b)))
            },
        }
    }

    fn evaluate_arith(&mut self, op: NumOp, left: Value, right: Value) -> (r: Result<Option<Value>, RuntimeError>)
        requires
            old(self).names_ok(),
        ensures
            final(self).names_ok(),
            (final(self)@, result_view(r)) == arith(old(self)@, op, left@, right@),
    {
        match (left, right) {
            (Value::Number(a), Value::Number(b)) => self.push_number(NumNode::Apply(op, a, b)),
            _ => Err(RuntimeError::UnsupportedOperands(op)),
        }
    }

    fn evaluate_subtract(&mut self, left: Value, right: Value) -> (r: Result<Option<Value>, RuntimeError>)
        requires
            old(self).names_ok(),
        ensures
            final(self).names_ok(),
            (final(self)@, result_view(r)) == arith(old(self)@, NumOp::Sub, left@, right@),
    {
        self.evaluate_arith(NumOp::Sub, left, right)
    }

    fn evaluate_multiply(&mut self, left: Value, right: Value) -> (r: Result<Option<Value>, RuntimeError>)
        requires
            old(self).names_ok(),
        ensures
            final(self).names_ok(),
            (final(self)@, result_view(r)) == arith(old(self)@, NumOp::Mul, left@, right@),
    {
        self.evaluate_arith(NumOp::Mul, left, right)
    }

    fn evaluate_divide(&mut self, left: Value, right: Value) -> (r: Result<Option<Value>, RuntimeError>)
        requires
            old(self).names_ok(),
        ensures
            final(self).names_ok(),
            (final(self)@, result_view(r)) == arith(old(self)@, NumOp::Div, left@, right@),
    {
        self.evaluate_arith(NumOp::Div, left, right)
    }
}

} // verus!
