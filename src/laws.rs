use vstd::prelude::*;
use crate::ast::{Node, VarType};
use crate::interpreter::{BindingV, ErrorV, NumNodeV, NumOp, PieceV, State, ValueV, concat_or_sum, declared,
    eval, fits, index_of, info_of, run};
use crate::tokens::Tok;

verus! {

/// `s1` keeps every binding of `s` in its place, with its name and declared type.
pub open spec fn extends(s: State, s1: State) -> bool {
    s.env.len() <= s1.env.len() && forall|i: int|
        0 <= i < s.env.len() ==> #[trigger] s1.env[i].name == s.env[i].name && s1.env[i].info
            == s.env[i].info
}

/// Every binding holds a value of its declared type.
pub open spec fn well_typed(env: Seq<BindingV>) -> bool {
    forall|i: int| 0 <= i < env.len() ==> fits(#[trigger] env[i].info, env[i].value)
}

pub open spec fn declaration(t: VarType, name: Seq<char>, value: Node) -> Node {
    Node::VarDeclaration { var_type: t, name, value: Box::new(value) }
}

/// Evaluating any node keeps each variable's declared type, and keeps every
/// variable holding a value of that type.
pub proof fn law_types_kept(s: State, e: Node)
    requires
        well_typed(s.env),
    ensures
        extends(s, eval(s, e).0),
        well_typed(eval(s, e).0.env),
    decreases e,
{
    match e {
        Node::VarDeclaration { var_type, name, value } => {
            law_types_kept(s, *value);
            let s1 = eval(s, *value).0;
            let r = eval(s, *value).1;
            let s2 = eval(s, e).0;
            if declared(s.env, name) {
                assert(s2 == s);
            } else if r is Ok && r->Ok_0 is Some && !declared(s1.env, name) && fits(
                info_of(var_type),
                r->Ok_0->Some_0,
            ) {
                let b = BindingV { name, info: info_of(var_type), value: r->Ok_0->Some_0 };
                assert(s2.env == s1.env.push(b));
                assert forall|i: int| 0 <= i < s.env.len() implies #[trigger] s2.env[i].name == s.env[i].name
                    && s2.env[i].info == s.env[i].info by {
                    assert(s2.env[i] == s1.env[i]);
                    assert(s1.env[i].name == s.env[i].name);
                }
                assert forall|i: int| 0 <= i < s2.env.len() implies fits(#[trigger] s2.env[i].info, s2.env[i].value) by {
                    if i < s1.env.len() {
                        assert(s2.env[i] == s1.env[i]);
                    }
                }
            } else {
                assert(s2 == s1);
            }
        },
        Node::Binary { left, operator, right } => {
            law_types_kept(s, *left);
            let s1 = eval(s, *left).0;
            law_types_kept(s1, *right);
        },
        Node::Assignment { name, value } => {
            law_types_kept(s, *value);
        },
        Node::Print(x) => {
            law_types_kept(s, *x);
        },
        _ => {},
    }
}

/// Running statements keeps each variable's declared type, and keeps every
/// variable holding a value of that type.
pub proof fn law_run_types_kept(s: State, stmts: Seq<Node>)
    requires
        well_typed(s.env),
    ensures
        extends(s, run(s, stmts).0),
        well_typed(run(s, stmts).0.env),
    decreases stmts.len(),
{
    if stmts.len() > 0 {
        law_types_kept(s, stmts[0]);
        let s1 = eval(s, stmts[0]).0;
        if eval(s, stmts[0]).1 is Ok {
            law_run_types_kept(s1, stmts.drop_first());
        }
    }
}

/// Assigning a value of the wrong kind to a declared variable fails with a
/// type mismatch that names the variable and its declared type.
pub proof fn law_assignment_checks_type(s: State, name: Seq<char>, value: Node)
    requires
        eval(s, value).1 is Ok,
        eval(s, value).1->Ok_0 is Some,
        declared(eval(s, value).0.env, name),
        !fits(
            eval(s, value).0.env[index_of(eval(s, value).0.env, name)].info,
            eval(s, value).1->Ok_0->Some_0,
        ),
    ensures
        eval(s, Node::Assignment { name, value: Box::new(value) }) == (
            eval(s, value).0,
            Err::<Option<ValueV>, ErrorV>(ErrorV::TypeMismatch(
                name,
                eval(s, value).0.env[index_of(eval(s, value).0.env, name)].info,
            )),
        ),
{
}

/// A second declaration of a name always fails, whatever the two types.
pub proof fn law_redeclaration_rejected(
    s: State,
    t1: VarType,
    t2: VarType,
    name: Seq<char>,
    v1: Node,
    v2: Node,
)
    ensures
        run(s, seq![declaration(t1, name, v1), declaration(t2, name, v2)]).1 == Err::<(), ErrorV>(
            if eval(s, declaration(t1, name, v1)).1 is Err {
                eval(s, declaration(t1, name, v1)).1->Err_0
            } else {
                ErrorV::AlreadyDefined(name)
            },
        ),
{
    reveal_with_fuel(run, 3);
    let d1 = declaration(t1, name, v1);
    let d2 = declaration(t2, name, v2);
    let stmts = seq![d1, d2];
    assert(stmts[0] == d1);
    assert(stmts.drop_first() =~= seq![d2]);
    let s1 = eval(s, d1).0;
    if eval(s, d1).1 is Ok {
        assert(s1.env[s1.env.len() - 1].name == name);
        assert(declared(s1.env, name));
        assert(seq![d2][0] == d2);
    }
}

/// A literal declared with a type it fits and then printed is printed as the
/// literal's own value, and the program succeeds.
pub proof fn law_declared_literal_prints(s: State, t: VarType, name: Seq<char>, lit: Node)
    requires
        !declared(s.env, name),
        lit is Number || lit is Str,
        fits(info_of(t), eval(s, lit).1->Ok_0->Some_0),
    ensures
        run(s, seq![declaration(t, name, lit), Node::Print(Box::new(Node::Variable(name)))]).1 == Ok::<(), ErrorV>(()),
        run(s, seq![declaration(t, name, lit), Node::Print(Box::new(Node::Variable(name)))]).0.output
            == s.output.push(eval(s, lit).1->Ok_0->Some_0),
{
    reveal_with_fuel(run, 3);
    let d = declaration(t, name, lit);
    let p = Node::Print(Box::new(Node::Variable(name)));
    let stmts = seq![d, p];
    assert(stmts[0] == d);
    assert(stmts.drop_first() =~= seq![p]);
    assert(seq![p][0] == p);
    assert(seq![p].drop_first() =~= Seq::<Node>::empty());
    let v = eval(s, lit).1->Ok_0->Some_0;
    let s0 = eval(s, lit).0;
    assert(s0.env == s.env);
    assert(!declared(s0.env, name));
    let s1 = eval(s, d).0;
    assert(eval(s, d).1 == Ok::<Option<ValueV>, ErrorV>(None));
    assert(s1.env == s.env.push(BindingV { name, info: info_of(t), value: v }));
    let k = s1.env.len() - 1;
    assert(s1.env[k].name == name);
    let i = index_of(s1.env, name);
    assert(i == k) by {
        if i < k {
            assert(s.env[i].name == name);
        }
    }
    assert(eval(s1, Node::Variable(name)) == (s1, Ok::<Option<ValueV>, ErrorV>(Some(v))));
    assert(eval(s1, p).0.output == s1.output.push(v));
    assert(eval(s1, p).1 is Ok);
}

/// Reading or assigning a variable that was never declared always fails.
pub proof fn law_undefined_variable(s: State, name: Seq<char>, value: Node)
    ensures
        !declared(s.env, name) ==> eval(s, Node::Variable(name)) == (
            s,
            Err::<Option<ValueV>, ErrorV>(ErrorV::UndefinedVariable(name)),
        ),
        eval(s, value).1 is Ok && eval(s, value).1->Ok_0 is Some && !declared(eval(s, value).0.env, name)
            ==> eval(s, Node::Assignment { name, value: Box::new(value) }).1
            == Err::<Option<ValueV>, ErrorV>(ErrorV::UndefinedVariable(name)),
{
}

/// `-`, `*` and `/` with a string on either side always fail; nothing is
/// converted.
pub proof fn law_unsupported_operands(s: State, left: Node, op: Tok, right: Node)
    requires
        op is Minus || op is Star || op is Slash,
        eval(s, left).1 is Ok && eval(s, left).1->Ok_0 is Some,
        eval(eval(s, left).0, right).1 is Ok && eval(eval(s, left).0, right).1->Ok_0 is Some,
        eval(s, left).1->Ok_0->Some_0 is Str || eval(eval(s, left).0, right).1->Ok_0->Some_0 is Str,
    ensures
        eval(s, Node::Binary { left: Box::new(left), operator: op, right: Box::new(right) }).1
            == Err::<Option<ValueV>, ErrorV>(ErrorV::UnsupportedOperands(
            if op is Minus {
                NumOp::Sub
            } else if op is Star {
                NumOp::Mul
            } else {
                NumOp::Div
            },
        )),
{
}

/// A variable declared by one statement stays declared, with the same type,
/// through all the statements that run after it on the same state.
pub proof fn law_declaration_persists(s: State, t: VarType, name: Seq<char>, value: Node, later: Seq<Node>)
    requires
        well_typed(s.env),
        eval(s, declaration(t, name, value)).1 is Ok,
    ensures
        declared(eval(s, declaration(t, name, value)).0.env, name),
        declared(run(eval(s, declaration(t, name, value)).0, later).0.env, name),
{
    let s1 = eval(s, declaration(t, name, value)).0;
    law_types_kept(s, declaration(t, name, value));
    let k = s1.env.len() - 1;
    assert(s1.env[k].name == name);
    law_run_types_kept(s1, later);
    let s2 = run(s1, later).0;
    assert(s2.env[k].name == name);
}

/// The parts a value contributes to a concatenation: a number is one part.
pub open spec fn parts(v: ValueV) -> Seq<PieceV> {
    match v {
        ValueV::Number(i) => seq![PieceV::Num(i)],
        ValueV::Str(ps) => ps,
    }
}

/// `+` with a string on either side concatenates the two operands' parts,
/// left operand first, and computes no number; `+` on two numbers adds
/// the left one to the right one.
pub proof fn law_plus_order(s: State, a: ValueV, b: ValueV)
    ensures
        (a is Str || b is Str) ==> concat_or_sum(s, a, b) == (
            s,
            Ok::<Option<ValueV>, ErrorV>(Some(ValueV::Str(parts(a) + parts(b)))),
        ),
        (a is Number && b is Number) ==> concat_or_sum(s, a, b).0.numbers == s.numbers.push(
            NumNodeV::Apply(NumOp::Add, a->Number_0, b->Number_0),
        ),
{
    if a is Str && b is Number {
        assert(parts(a).push(PieceV::Num(b->Number_0)) =~= parts(a) + parts(b));
    }
}

} // verus!
