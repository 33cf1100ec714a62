//! The tree evaluator: walks the syntax tree against the environment arena,
//! looking variables up at the depths the resolver assigned, collecting what
//! `print` writes, and stopping at the first runtime failure.
use vstd::prelude::*;
use crate::ast::{lit_view, spec_display, spec_lox_eq, Expr, Stmt, ValueM};
use crate::environment::{
    spec_get, spec_get_at, spec_update, spec_update_at, Environment, FrameM, parents_ok,
};
use crate::location::SourceLocation;
use crate::number::{
    f64_add, f64_cmp, f64_div, f64_mul, f64_sub, spec_is_zero, spec_negated, NumCmp,
};
use crate::resolver::Locals;
use crate::token::{spec_truthy, Literal, TokenType};

verus! {

broadcast use vstd::std_specs::vec::group_vec_axioms, vstd::seq::group_seq_axioms;

/// A runtime failure: the kinds the language defines, each with the location
/// of the expression that failed. Exceeding the evaluation depth is its own
/// kind, since a verified evaluator cannot recurse without bound.
#[derive(Debug)]
pub enum Error {
    TypeMismatch { location: SourceLocation },
    DivisionByZero { location: SourceLocation },
    UndefinedVariable { name: String, location: SourceLocation },
    UninitializedVariable { name: String, location: SourceLocation },
    ArityMismatch { expected: usize, got: usize, location: SourceLocation },
    NotCallable { location: SourceLocation },
    ReturnOutsideFunction { location: SourceLocation },
    RecursionLimit { location: SourceLocation },
}

/// The mathematical picture of a runtime failure.
pub enum ErrM {
    TypeMismatch { location: SourceLocation },
    DivisionByZero { location: SourceLocation },
    UndefinedVariable { name: Seq<char>, location: SourceLocation },
    UninitializedVariable { name: Seq<char>, location: SourceLocation },
    ArityMismatch { expected: int, got: int, location: SourceLocation },
    NotCallable { location: SourceLocation },
    ReturnOutsideFunction { location: SourceLocation },
    RecursionLimit { location: SourceLocation },
}

/// What a runtime failure stands for.
pub open spec fn err_view(e: Error) -> ErrM {
    match e {
        Error::TypeMismatch { location } => ErrM::TypeMismatch { location },
        Error::DivisionByZero { location } => ErrM::DivisionByZero { location },
        Error::UndefinedVariable { name, location } => ErrM::UndefinedVariable {
            name: name@,
            location,
        },
        Error::UninitializedVariable { name, location } => ErrM::UninitializedVariable {
            name: name@,
            location,
        },
        Error::ArityMismatch { expected, got, location } => ErrM::ArityMismatch {
            expected: expected as int,
            got: got as int,
            location,
        },
        Error::NotCallable { location } => ErrM::NotCallable { location },
        Error::ReturnOutsideFunction { location } => ErrM::ReturnOutsideFunction { location },
        Error::RecursionLimit { location } => ErrM::RecursionLimit { location },
    }
}

/// The evaluator's whole state: the environment arena and the lines printed
/// so far.
pub struct StM {
    pub env: Seq<FrameM>,
    pub out: Seq<Seq<char>>,
}

/// What evaluating an expression produces.
pub enum EvalR {
    Val(ValueM, StM),
    Div(ErrM, StM),
}

/// What executing a statement produces: an optional value, whether a
/// `return` is unwinding, and the state — or a failure.
pub enum ExecR {
    Done(Option<ValueM>, bool, StM),
    Broke(ErrM, StM),
}

/// What evaluating an argument list produces.
pub enum ListR {
    Vals(Seq<ValueM>, StM),
    LErr(ErrM, StM),
}

/// The boolean values of the language.
pub open spec fn bool_val(b: bool) -> ValueM {
    if b {
        ValueM::VTrue
    } else {
        ValueM::VFalse
    }
}

/// A binary operator applied to two finished operands.
pub open spec fn spec_binop(op: TokenType, a: ValueM, b: ValueM, location: SourceLocation) -> Result<
    ValueM,
    ErrM,
> {
    if op == TokenType::EqualEq {
        Ok(bool_val(spec_lox_eq(a, b)))
    } else if op == TokenType::BangEq {
        Ok(bool_val(!spec_lox_eq(a, b)))
    } else if op == TokenType::Greater || op == TokenType::GreaterEq || op == TokenType::Less || op
        == TokenType::LessEq {
        match (a, b) {
            (ValueM::VNum(x), ValueM::VNum(y)) => {
                let c = f64_cmp(x, y);
                if c == NumCmp::Unordered {
                    Err(ErrM::TypeMismatch { location })
                } else if op == TokenType::Greater {
                    Ok(bool_val(c == NumCmp::Greater))
                } else if op == TokenType::GreaterEq {
                    Ok(bool_val(c == NumCmp::Greater || c == NumCmp::Equal))
                } else if op == TokenType::Less {
                    Ok(bool_val(c == NumCmp::Less))
                } else {
                    Ok(bool_val(c == NumCmp::Less || c == NumCmp::Equal))
                }
            },
            _ => Err(ErrM::TypeMismatch { location }),
        }
    } else if op == TokenType::Plus {
        match (a, b) {
            (ValueM::VNum(x), ValueM::VNum(y)) => Ok(ValueM::VNum(f64_add(x, y))),
            _ => if a is VStr {
                Ok(ValueM::VStr(a->VStr_0 + spec_display(b)))
            } else if b is VStr {
                Ok(ValueM::VStr(spec_display(a) + b->VStr_0))
            } else {
                Err(ErrM::TypeMismatch { location })
            },
        }
    } else if op == TokenType::Minus {
        match (a, b) {
            (ValueM::VNum(x), ValueM::VNum(y)) => Ok(ValueM::VNum(f64_sub(x, y))),
            _ => Err(ErrM::TypeMismatch { location }),
        }
    } else if op == TokenType::Star {
        match (a, b) {
            (ValueM::VNum(x), ValueM::VNum(y)) => Ok(ValueM::VNum(f64_mul(x, y))),
            _ => Err(ErrM::TypeMismatch { location }),
        }
    } else if op == TokenType::Slash {
        match (a, b) {
            (ValueM::VNum(x), ValueM::VNum(y)) => if spec_is_zero(y) {
                Err(ErrM::DivisionByZero { location })
            } else {
                Ok(ValueM::VNum(f64_div(x, y)))
            },
            _ => Err(ErrM::TypeMismatch { location }),
        }
    } else {
        Err(ErrM::TypeMismatch { location })
    }
}

/// What the values of a list of literals stand for.
pub open spec fn vals_view(vs: Seq<Literal>) -> Seq<ValueM> {
    vs.map_values(|l: Literal| lit_view(l))
}

/// Values already evaluated, put before whatever an argument list's rest
/// yields.
pub open spec fn lr_prepend(pre: Seq<ValueM>, r: ListR) -> ListR {
    match r {
        ListR::Vals(vs, st) => ListR::Vals(pre + vs, st),
        e => e,
    }
}

/// A finished call, after its arguments: bind the parameters in a fresh
/// frame under the captured one and run the body with one unit of fuel
/// spent. A spent-out evaluation is the depth failure.
pub open spec fn call_after_args(
    r: ListR,
    params: Seq<Seq<char>>,
    body: Stmt,
    closure: nat,
    location: SourceLocation,
    locals: Map<SourceLocation, usize>,
    fuel: nat,
) -> EvalR
    decreases 2 * fuel, body, 0int,
{
    match r {
        ListR::LErr(em, st2) => EvalR::Div(em, st2),
        ListR::Vals(vs, st2) => {
            if fuel == 0 || closure >= st2.env.len() {
                EvalR::Div(ErrM::RecursionLimit { location }, st2)
            } else {
                let child = st2.env.len();
                let env3 = st2.env.push(
                    FrameM { parent: Some(closure as usize), vals: bind_map(params, vs) },
                );
                match spec_exec(
                    body,
                    child as int,
                    StM { env: env3, out: st2.out },
                    locals,
                    true,
                    (fuel - 1) as nat,
                ) {
                    ExecR::Done(val, _, st3) => EvalR::Val(
                        (match val {
                            Some(v) => v,
                            None => ValueM::VNil,
                        }),
                        st3,
                    ),
                    ExecR::Broke(em, st3) => EvalR::Div(em, st3),
                }
            }
        },
    }
}

/// Binding each parameter to its argument, in order; with a repeated name
/// the later binding wins, as repeated definitions do.
pub open spec fn bind_map(ps: Seq<Seq<char>>, vs: Seq<ValueM>) -> Map<Seq<char>, Option<ValueM>>
    decreases ps.len(),
{
    if ps.len() == 0 {
        Map::empty()
    } else {
        bind_map(ps.drop_last(), vs.drop_last()).insert(ps.last(), Some(vs[ps.len() - 1]))
    }
}

/// Evaluating one expression. Numbers follow IEEE double arithmetic through
/// the number module's names; `and` and `or` evaluate their left side and
/// short-circuit; a call runs the function body in a fresh frame whose
/// parent is the frame the function value captured.
pub open spec fn spec_eval(
    e: Expr,
    env: int,
    st: StM,
    locals: Map<SourceLocation, usize>,
    in_fun: bool,
    fuel: nat,
) -> EvalR
    decreases 2 * fuel + 1, e, 0int,
{
    match e {
        Expr::Literal { value, .. } => EvalR::Val(lit_view(value), st),
        Expr::Variable { location, name } => {
            let found = if locals.contains_key(location) {
                spec_get_at(st.env, env, name@, locals[location] as nat)
            } else {
                spec_get(st.env, env, name@)
            };
            match found {
                Some(Some(v)) => EvalR::Val(v, st),
                Some(None) => EvalR::Div(
                    ErrM::UninitializedVariable { name: name@, location },
                    st,
                ),
                None => EvalR::Div(ErrM::UndefinedVariable { name: name@, location }, st),
            }
        },
        Expr::Assignment { location, name, value } => {
            match spec_eval(*value, env, st, locals, in_fun, fuel) {
                EvalR::Val(v, st1) => {
                    let updated = if locals.contains_key(location) {
                        spec_update_at(st1.env, env, name@, v, locals[location] as nat)
                    } else {
                        spec_update(st1.env, env, name@, v)
                    };
                    match updated {
                        Some(env2) => EvalR::Val(v, StM { env: env2, out: st1.out }),
                        None => EvalR::Div(
                            ErrM::UndefinedVariable { name: name@, location },
                            st1,
                        ),
                    }
                },
                f => f,
            }
        },
        Expr::Unary { location, operator, right } => {
            match spec_eval(*right, env, st, locals, in_fun, fuel) {
                EvalR::Val(v, st1) => if operator == TokenType::Minus {
                    match v {
                        ValueM::VNum(b) => EvalR::Val(ValueM::VNum(spec_negated(b)), st1),
                        _ => EvalR::Div(ErrM::TypeMismatch { location }, st1),
                    }
                } else if operator == TokenType::Bang {
                    EvalR::Val(bool_val(!spec_truthy(v)), st1)
                } else {
                    EvalR::Div(ErrM::TypeMismatch { location }, st1)
                },
                f => f,
            }
        },
        Expr::Binary { location, left, operator, right } => {
            match spec_eval(*left, env, st, locals, in_fun, fuel) {
                EvalR::Val(lv, st1) => if operator == TokenType::Or {
                    if spec_truthy(lv) {
                        EvalR::Val(lv, st1)
                    } else {
                        spec_eval(*right, env, st1, locals, in_fun, fuel)
                    }
                } else if operator == TokenType::And {
                    if !spec_truthy(lv) {
                        EvalR::Val(lv, st1)
                    } else {
                        spec_eval(*right, env, st1, locals, in_fun, fuel)
                    }
                } else {
                    match spec_eval(*right, env, st1, locals, in_fun, fuel) {
                        EvalR::Val(rv, st2) => match spec_binop(operator, lv, rv, location) {
                            Ok(v) => EvalR::Val(v, st2),
                            Err(em) => EvalR::Div(em, st2),
                        },
                        f => f,
                    }
                },
                f => f,
            }
        },
        Expr::Call { location, callee, arguments } => {
            match spec_eval(*callee, env, st, locals, in_fun, fuel) {
                EvalR::Val(cv, st1) => match cv {
                    ValueM::VFun { params, body, closure } => {
                        if params.len() != arguments@.len() {
                            EvalR::Div(
                                ErrM::ArityMismatch {
                                    expected: params.len() as int,
                                    got: arguments@.len() as int,
                                    location,
                                },
                                st1,
                            )
                        } else {
                            call_after_args(
                                spec_eval_list(arguments@, env, st1, locals, in_fun, fuel),
                                params,
                                body,
                                closure,
                                location,
                                locals,
                                fuel,
                            )
                        }
                    },
                    _ => EvalR::Div(ErrM::NotCallable { location }, st1),
                },
                f => f,
            }
        },
    }
}

/// Evaluating an argument list, left to right.
pub open spec fn spec_eval_list(
    es: Seq<Expr>,
    env: int,
    st: StM,
    locals: Map<SourceLocation, usize>,
    in_fun: bool,
    fuel: nat,
) -> ListR
    decreases 2 * fuel + 1, es, 1int,
{
    if es.len() == 0 {
        ListR::Vals(Seq::empty(), st)
    } else {
        match spec_eval(es[0], env, st, locals, in_fun, fuel) {
            EvalR::Val(v, st1) => {
                match spec_eval_list(es.subrange(1, es.len() as int), env, st1, locals, in_fun, fuel) {
                    ListR::Vals(vs, st2) => ListR::Vals(seq![v] + vs, st2),
                    f => f,
                }
            },
            EvalR::Div(em, st1) => ListR::LErr(em, st1),
        }
    }
}

/// Executing one statement. Blocks run in a fresh child frame; a `while`
/// spends one unit of fuel per iteration; a `return` outside any call is a
/// failure, and inside one it unwinds with its value.
pub open spec fn spec_exec(
    s: Stmt,
    env: int,
    st: StM,
    locals: Map<SourceLocation, usize>,
    in_fun: bool,
    fuel: nat,
) -> ExecR
    decreases 2 * fuel + 1, s, 1int,
{
    match s {
        Stmt::Expression(e) => match spec_eval(e, env, st, locals, in_fun, fuel) {
            EvalR::Val(v, st1) => ExecR::Done(Some(v), false, st1),
            EvalR::Div(em, st1) => ExecR::Broke(em, st1),
        },
        Stmt::Print(e) => match spec_eval(e, env, st, locals, in_fun, fuel) {
            EvalR::Val(v, st1) => ExecR::Done(
                None,
                false,
                StM { env: st1.env, out: st1.out.push(spec_display(v)) },
            ),
            EvalR::Div(em, st1) => ExecR::Broke(em, st1),
        },
        Stmt::VarDecl { name, initializer, .. } => {
            let evaluated = match initializer {
                Some(e) => match spec_eval(e, env, st, locals, in_fun, fuel) {
                    EvalR::Val(v, st1) => EvalR::Val(v, st1),
                    f => f,
                },
                None => EvalR::Val(ValueM::VNil, st),
            };
            match evaluated {
                EvalR::Val(v, st1) => {
                    let binding = match initializer {
                        Some(_) => Some(v),
                        None => None,
                    };
                    let frame = st1.env[env];
                    ExecR::Done(
                        None,
                        false,
                        StM {
                            env: st1.env.update(
                                env,
                                FrameM {
                                    parent: frame.parent,
                                    vals: frame.vals.insert(name@, binding),
                                },
                            ),
                            out: st1.out,
                        },
                    )
                },
                EvalR::Div(em, st1) => ExecR::Broke(em, st1),
            }
        },
        Stmt::If { condition, then_branch, else_branch } => {
            match spec_eval(condition, env, st, locals, in_fun, fuel) {
                EvalR::Val(v, st1) => if spec_truthy(v) {
                    spec_exec(*then_branch, env, st1, locals, in_fun, fuel)
                } else {
                    match else_branch {
                        Some(el) => spec_exec(*el, env, st1, locals, in_fun, fuel),
                        None => ExecR::Done(None, false, st1),
                    }
                },
                EvalR::Div(em, st1) => ExecR::Broke(em, st1),
            }
        },
        Stmt::While { condition, body } => {
            match spec_eval(condition, env, st, locals, in_fun, fuel) {
                EvalR::Val(v, st1) => if !spec_truthy(v) {
                    ExecR::Done(None, false, st1)
                } else {
                    match spec_exec(*body, env, st1, locals, in_fun, fuel) {
                        ExecR::Done(val, true, st2) => ExecR::Done(val, true, st2),
                        ExecR::Done(_, false, st2) => if fuel == 0 {
                            ExecR::Broke(
                                ErrM::RecursionLimit {
                                    location: crate::ast::spec_expr_location(condition),
                                },
                                st2,
                            )
                        } else {
                            spec_exec(s, env, st2, locals, in_fun, (fuel - 1) as nat)
                        },
                        ExecR::Broke(em, st2) => ExecR::Broke(em, st2),
                    }
                },
                EvalR::Div(em, st1) => ExecR::Broke(em, st1),
            }
        },
        Stmt::Block(v) => {
            let child = st.env.len();
            let env2 = st.env.push(FrameM { parent: Some(env as usize), vals: Map::empty() });
            match spec_exec_list(v@, child as int, StM { env: env2, out: st.out }, locals, in_fun, fuel) {
                ExecR::Done(val, true, st2) => ExecR::Done(val, true, st2),
                ExecR::Done(_, false, st2) => ExecR::Done(None, false, st2),
                ExecR::Broke(em, st2) => ExecR::Broke(em, st2),
            }
        },
        Stmt::FunDecl { name, params, body } => {
            let frame = st.env[env];
            let fv = ValueM::VFun {
                params: params.deep_view(),
                body: *body,
                closure: env as nat,
            };
            ExecR::Done(
                None,
                false,
                StM {
                    env: st.env.update(
                        env,
                        FrameM { parent: frame.parent, vals: frame.vals.insert(name@, Some(fv)) },
                    ),
                    out: st.out,
                },
            )
        },
        Stmt::Return(e) => {
            if !in_fun {
                ExecR::Broke(
                    ErrM::ReturnOutsideFunction { location: crate::ast::spec_expr_location(e) },
                    st,
                )
            } else {
                match spec_eval(e, env, st, locals, in_fun, fuel) {
                    EvalR::Val(v, st1) => ExecR::Done(Some(v), true, st1),
                    EvalR::Div(em, st1) => ExecR::Broke(em, st1),
                }
            }
        },
    }
}

/// Executing statements in order, stopping early when one unwinds a
/// `return` or fails.
pub open spec fn spec_exec_list(
    ss: Seq<Stmt>,
    env: int,
    st: StM,
    locals: Map<SourceLocation, usize>,
    in_fun: bool,
    fuel: nat,
) -> ExecR
    decreases 2 * fuel + 1, ss, 2int,
{
    if ss.len() == 0 {
        ExecR::Done(None, false, st)
    } else {
        match spec_exec(ss[0], env, st, locals, in_fun, fuel) {
            ExecR::Done(val, true, st1) => ExecR::Done(val, true, st1),
            ExecR::Done(_, false, st1) => spec_exec_list(
                ss.subrange(1, ss.len() as int),
                env,
                st1,
                locals,
                in_fun,
                fuel,
            ),
            ExecR::Broke(em, st1) => ExecR::Broke(em, st1),
        }
    }
}

/// What running a whole program produces: the last statement's value (for a
/// prompt to show), or the failure that stopped it; either way the state.
pub enum InterpR {
    IOk(Option<ValueM>, StM),
    IErr(ErrM, StM),
}

/// Running a program's statements in order against the global frame.
pub open spec fn spec_interpret(
    ss: Seq<Stmt>,
    st: StM,
    locals: Map<SourceLocation, usize>,
    prev: Option<ValueM>,
    fuel: nat,
) -> InterpR
    decreases ss.len(),
{
    if ss.len() == 0 {
        InterpR::IOk(prev, st)
    } else {
        match spec_exec(ss[0], 0, st, locals, false, fuel) {
            ExecR::Done(val, _, st1) => spec_interpret(
                ss.subrange(1, ss.len() as int),
                st1,
                locals,
                val,
                fuel,
            ),
            ExecR::Broke(em, st1) => InterpR::IErr(em, st1),
        }
    }
}


/// Decides one binary operator on finished operands.
fn binop(op: TokenType, a: Literal, b: Literal, location: SourceLocation) -> (r: Result<
    Literal,
    Error,
>)
    ensures
        match spec_binop(op, lit_view(a), lit_view(b), location) {
            Ok(v) => r is Ok && lit_view(r->Ok_0) == v,
            Err(em) => r is Err && err_view(r->Err_0) == em,
        },
{
    match op {
        TokenType::EqualEq => {
            if crate::ast::lox_eq(&a, &b) {
                Ok(Literal::True)
            } else {
                Ok(Literal::False)
            }
        },
        TokenType::BangEq => {
            if crate::ast::lox_eq(&a, &b) {
                Ok(Literal::False)
            } else {
                Ok(Literal::True)
            }
        },
        TokenType::Greater | TokenType::GreaterEq | TokenType::Less | TokenType::LessEq => {
            match (&a, &b) {
                (Literal::Number(x), Literal::Number(y)) => {
                    let c = crate::number::cmp_bits(*x, *y);
                    match c {
                        NumCmp::Unordered => Err(Error::TypeMismatch { location }),
                        _ => {
                            let hold = match op {
                                TokenType::Greater => matches!(c, NumCmp::Greater),
                                TokenType::GreaterEq => matches!(
                                    c,
                                    NumCmp::Greater | NumCmp::Equal
                                ),
                                TokenType::Less => matches!(c, NumCmp::Less),
                                _ => matches!(c, NumCmp::Less | NumCmp::Equal),
                            };
                            if hold {
                                Ok(Literal::True)
                            } else {
                                Ok(Literal::False)
                            }
                        },
                    }
                },
                _ => Err(Error::TypeMismatch { location }),
            }
        },
        TokenType::Plus => {
            match (&a, &b) {
                (Literal::Number(x), Literal::Number(y)) => Ok(
                    Literal::Number(crate::number::add_bits(*x, *y)),
                ),
                _ => {
                    if matches!(a, Literal::String(_)) {
                        let bs = crate::ast::display_value(&b);
                        match a {
                            Literal::String(x) => Ok(Literal::String(x.concat(bs.as_str()))),
                            _ => Err(Error::TypeMismatch { location }),
                        }
                    } else if matches!(b, Literal::String(_)) {
                        let as_ = crate::ast::display_value(&a);
                        match b {
                            Literal::String(y) => Ok(
                                Literal::String(as_.concat(y.as_str())),
                            ),
                            _ => Err(Error::TypeMismatch { location }),
                        }
                    } else {
                        Err(Error::TypeMismatch { location })
                    }
                },
            }
        },
        TokenType::Minus => {
            match (&a, &b) {
                (Literal::Number(x), Literal::Number(y)) => Ok(
                    Literal::Number(crate::number::sub_bits(*x, *y)),
                ),
                _ => Err(Error::TypeMismatch { location }),
            }
        },
        TokenType::Star => {
            match (&a, &b) {
                (Literal::Number(x), Literal::Number(y)) => Ok(
                    Literal::Number(crate::number::mul_bits(*x, *y)),
                ),
                _ => Err(Error::TypeMismatch { location }),
            }
        },
        TokenType::Slash => {
            match (&a, &b) {
                (Literal::Number(x), Literal::Number(y)) => {
                    if crate::number::is_zero_bits(*y) {
                        Err(Error::DivisionByZero { location })
                    } else {
                        Ok(Literal::Number(crate::number::div_bits(*x, *y)))
                    }
                },
                _ => Err(Error::TypeMismatch { location }),
            }
        },
        _ => Err(Error::TypeMismatch { location }),
    }
}

/// The current state as one picture.
pub open spec fn cur_st(arena: Environment, out: Vec<String>) -> StM {
    StM { env: arena@, out: out.deep_view() }
}

/// Evaluates one expression against the arena, collecting printed lines.
#[verifier::rlimit(100)]
fn evaluate(
    e: &Expr,
    env: usize,
    arena: &mut Environment,
    out: &mut Vec<String>,
    locals: &Locals,
    in_fun: bool,
    fuel: u64,
) -> (r: Result<Literal, Error>)
    requires
        old(arena).inv(),
        env < old(arena)@.len(),
    ensures
        final(arena).inv(),
        final(arena)@.len() >= old(arena)@.len(),
        match spec_eval(*e, env as int, cur_st(*old(arena), *old(out)), locals@, in_fun, fuel as nat) {
            EvalR::Val(v, st2) => r is Ok && lit_view(r->Ok_0) == v && cur_st(
                *final(arena),
                *final(out),
            ) == st2,
            EvalR::Div(em, st2) => r is Err && err_view(r->Err_0) == em && cur_st(
                *final(arena),
                *final(out),
            ) == st2,
        },
    decreases fuel, *e, 0int,
{
    let ghost st0 = cur_st(*arena, *out);
    match e {
        Expr::Literal { value, .. } => Ok(value.dup()),
        Expr::Variable { location, name } => {
            let found = match locals.get(*location) {
                Some(d) => {
                    match arena.get_at(env, name.as_str(), d) {
                        Ok(b) => Some(b),
                        Err(_) => None,
                    }
                },
                None => {
                    match arena.get(env, name.as_str()) {
                        Some(b) => Some(b),
                        None => None,
                    }
                },
            };
            match found {
                Some(Some(v)) => Ok(v),
                Some(None) => Err(
                    Error::UninitializedVariable { name: name.clone(), location: *location },
                ),
                None => Err(
                    Error::UndefinedVariable { name: name.clone(), location: *location },
                ),
            }
        },
        Expr::Assignment { location, name, value } => {
            let res = evaluate(value, env, arena, out, locals, in_fun, fuel);
            match res {
                Ok(v) => {
                    let updated = match locals.get(*location) {
                        Some(d) => {
                            match arena.update_at(env, name.as_str(), v, d) {
                                Ok(v2) => Some(v2),
                                Err(_) => None,
                            }
                        },
                        None => arena.update(env, name.as_str(), v),
                    };
                    match updated {
                        Some(v2) => Ok(v2),
                        None => Err(
                            Error::UndefinedVariable { name: name.clone(), location: *location },
                        ),
                    }
                },
                Err(er) => Err(er),
            }
        },
        Expr::Unary { location, operator, right } => {
            let res = evaluate(right, env, arena, out, locals, in_fun, fuel);
            match res {
                Ok(v) => {
                    if matches!(operator, TokenType::Minus) {
                        match v {
                            Literal::Number(b) => Ok(
                                Literal::Number(crate::number::negate_bits(b)),
                            ),
                            _ => Err(Error::TypeMismatch { location: *location }),
                        }
                    } else if matches!(operator, TokenType::Bang) {
                        if v.is_truthy() {
                            Ok(Literal::False)
                        } else {
                            Ok(Literal::True)
                        }
                    } else {
                        Err(Error::TypeMismatch { location: *location })
                    }
                },
                Err(er) => Err(er),
            }
        },
        Expr::Binary { location, left, operator, right } => {
            let res = evaluate(left, env, arena, out, locals, in_fun, fuel);
            match res {
                Ok(lv) => {
                    if matches!(operator, TokenType::Or) {
                        if lv.is_truthy() {
                            Ok(lv)
                        } else {
                            evaluate(right, env, arena, out, locals, in_fun, fuel)
                        }
                    } else if matches!(operator, TokenType::And) {
                        if !lv.is_truthy() {
                            Ok(lv)
                        } else {
                            evaluate(right, env, arena, out, locals, in_fun, fuel)
                        }
                    } else {
                        let res2 = evaluate(right, env, arena, out, locals, in_fun, fuel);
                        match res2 {
                            Ok(rv) => binop(*operator, lv, rv, *location),
                            Err(er) => Err(er),
                        }
                    }
                },
                Err(er) => Err(er),
            }
        },
        Expr::Call { location, callee, arguments } => {
            let res = evaluate(callee, env, arena, out, locals, in_fun, fuel);
            match res {
                Ok(cv) => {
                    let ghost gcv = lit_view(cv);
                    match cv {
                        Literal::Function { params, body, closure } => {
                            if params.len() != arguments.len() {
                                return Err(
                                    Error::ArityMismatch {
                                        expected: params.len(),
                                        got: arguments.len(),
                                        location: *location,
                                    },
                                );
                            }
                            let ghost gparams = params.deep_view();
                            let ghost st1 = cur_st(*arena, *out);
                            let ghost whole_call = spec_eval(
                                *e,
                                env as int,
                                st0,
                                locals@,
                                in_fun,
                                fuel as nat,
                            );
                            proof {
                                assert(gcv == ValueM::VFun {
                                    params: gparams,
                                    body: gcv->VFun_body,
                                    closure: closure as nat,
                                });
                                assert(whole_call == call_after_args(
                                    spec_eval_list(
                                        arguments@,
                                        env as int,
                                        st1,
                                        locals@,
                                        in_fun,
                                        fuel as nat,
                                    ),
                                    gparams,
                                    gcv->VFun_body,
                                    closure as nat,
                                    *location,
                                    locals@,
                                    fuel as nat,
                                ));
                            }
                            let mut vs: Vec<Literal> = Vec::new();
                            let mut i: usize = 0;
                            proof {
                                assert(arguments@.subrange(0, arguments@.len() as int)
                                    =~= arguments@);
                                assert(vals_view(vs@) =~= Seq::<ValueM>::empty());
                                assert(vals_view(vs@) + spec_eval_list(
                                    arguments@,
                                    env as int,
                                    st1,
                                    locals@,
                                    in_fun,
                                    fuel as nat,
                                )->Vals_0 =~= spec_eval_list(
                                    arguments@,
                                    env as int,
                                    st1,
                                    locals@,
                                    in_fun,
                                    fuel as nat,
                                )->Vals_0);
                            }
                            while i < arguments.len()
                                invariant
                                    arena.inv(),
                                    arena@.len() >= old(arena)@.len(),
                                    env < old(arena)@.len(),
                                    *e is Call,
                                    e->Call_arguments == *arguments,
                                    st0 == cur_st(*old(arena), *old(out)),
                                    i <= arguments@.len(),
                                    vs@.len() == i,
                                    whole_call == spec_eval(
                                        *e,
                                        env as int,
                                        st0,
                                        locals@,
                                        in_fun,
                                        fuel as nat,
                                    ),
                                    whole_call == call_after_args(
                                        lr_prepend(
                                            vals_view(vs@),
                                            spec_eval_list(
                                                arguments@.subrange(
                                                    i as int,
                                                    arguments@.len() as int,
                                                ),
                                                env as int,
                                                cur_st(*arena, *out),
                                                locals@,
                                                in_fun,
                                                fuel as nat,
                                            ),
                                        ),
                                        gparams,
                                        gcv->VFun_body,
                                        closure as nat,
                                        *location,
                                        locals@,
                                        fuel as nat,
                                    ),
                                decreases arguments@.len() - i,
                            {
                                let ghost pre = arguments@.subrange(
                                    i as int,
                                    arguments@.len() as int,
                                );
                                let ghost vs_pre = vs@;
                                let res2 = evaluate(
                                    &arguments[i],
                                    env,
                                    arena,
                                    out,
                                    locals,
                                    in_fun,
                                    fuel,
                                );
                                proof {
                                    assert(pre[0] == arguments@[i as int]);
                                    assert(pre.subrange(1, pre.len() as int) =~= arguments@.subrange(
                                        i + 1,
                                        arguments@.len() as int,
                                    ));
                                }
                                match res2 {
                                    Ok(v) => {
                                        let ghost gv = lit_view(v);
                                        vs.push(v);
                                        proof {
                                            assert(vals_view(vs@) =~= vals_view(vs_pre).push(gv));
                                            let rest2 = spec_eval_list(
                                                arguments@.subrange(
                                                    i + 1,
                                                    arguments@.len() as int,
                                                ),
                                                env as int,
                                                cur_st(*arena, *out),
                                                locals@,
                                                in_fun,
                                                fuel as nat,
                                            );
                                            match rest2 {
                                                ListR::Vals(rvs, stx) => {
                                                    assert(vals_view(vs_pre) + (seq![gv] + rvs)
                                                        =~= vals_view(vs@) + rvs);
                                                },
                                                ListR::LErr(_, _) => {},
                                            }
                                        }
                                        i = i + 1;
                                    },
                                    Err(er) => {
                                        return Err(er);
                                    },
                                }
                            }
                            proof {
                                assert(arguments@.subrange(
                                    arguments@.len() as int,
                                    arguments@.len() as int,
                                ) =~= Seq::<Expr>::empty());
                                assert(vals_view(vs@) + Seq::<ValueM>::empty() =~= vals_view(vs@));
                                assert(whole_call == call_after_args(
                                    ListR::Vals(vals_view(vs@), cur_st(*arena, *out)),
                                    gparams,
                                    gcv->VFun_body,
                                    closure as nat,
                                    *location,
                                    locals@,
                                    fuel as nat,
                                ));
                            }
                            if fuel == 0 || closure >= arena.frames.len() {
                                return Err(Error::RecursionLimit { location: *location });
                            }
                            let ghost st_args_done = cur_st(*arena, *out);
                            let child = arena.new_with_parent(closure);
                            let ghost st2env = cur_st(*arena, *out);
                            proof {
                                assert(st2env.env =~= st_args_done.env.push(
                                    FrameM { parent: Some(closure), vals: Map::empty() },
                                ));
                                assert(gparams.subrange(0, 0) =~= Seq::<Seq<char>>::empty());
                            }
                            let mut j: usize = 0;
                            while j < params.len()
                                invariant
                                    arena.inv(),
                                    j <= params@.len(),
                                    params@.len() == vs@.len(),
                                    gparams == params.deep_view(),
                                    child < arena@.len(),
                                    child == st_args_done.env.len(),
                                    st2env.env == st_args_done.env.push(
                                        FrameM { parent: Some(closure), vals: Map::empty() },
                                    ),
                                    st2env.out == st_args_done.out,
                                    arena@.len() >= old(arena)@.len(),
                                    env < old(arena)@.len(),
                                    out.deep_view() == st_args_done.out,
                                    arena@ =~= st2env.env.update(
                                        child as int,
                                        FrameM {
                                            parent: st2env.env[child as int].parent,
                                            vals: bind_map(
                                                gparams.subrange(0, j as int),
                                                vals_view(vs@).subrange(0, j as int),
                                            ),
                                        },
                                    ),
                                decreases params@.len() - j,
                            {
                                proof {
                                    assert(gparams.subrange(0, (j + 1) as int).drop_last()
                                        =~= gparams.subrange(0, j as int));
                                    assert(vals_view(vs@).subrange(0, (j + 1) as int).drop_last()
                                        =~= vals_view(vs@).subrange(0, j as int));
                                    assert(gparams[j as int] == params@[j as int]@);
                                    assert(vals_view(vs@)[j as int] == lit_view(vs@[j as int]));
                                }
                                let pj = params[j].clone();
                                let vj = vs[j].dup();
                                arena.define(child, pj.as_str(), Some(vj));
                                j = j + 1;
                            }
                            proof {
                                assert(gparams.subrange(0, gparams.len() as int) =~= gparams);
                                assert(vals_view(vs@).subrange(0, vals_view(vs@).len() as int)
                                    =~= vals_view(vs@));
                                assert(arena@ =~= st_args_done.env.push(
                                    FrameM {
                                        parent: Some(closure),
                                        vals: bind_map(gparams, vals_view(vs@)),
                                    },
                                ));
                            }
                            let res3 = execute_rc(&body, child, arena, out, locals, fuel - 1);
                            proof {
                                assert(gcv->VFun_body == *body);
                            }
                            match res3 {
                                Ok((val, _)) => {
                                    match val {
                                        Some(v) => Ok(v),
                                        None => Ok(Literal::Nil),
                                    }
                                },
                                Err(er) => Err(er),
                            }
                        },
                        _ => Err(Error::NotCallable { location: *location }),
                    }
                },
                Err(er) => Err(er),
            }
        },
    }
}

/// Runs a shared function body in its frame.
fn execute_rc(
    body: &std::rc::Rc<Stmt>,
    env: usize,
    arena: &mut Environment,
    out: &mut Vec<String>,
    locals: &Locals,
    fuel: u64,
) -> (r: Result<(Option<Literal>, bool), Error>)
    requires
        old(arena).inv(),
        env < old(arena)@.len(),
    ensures
        final(arena).inv(),
        final(arena)@.len() >= old(arena)@.len(),
        match spec_exec(
            **body,
            env as int,
            cur_st(*old(arena), *old(out)),
            locals@,
            true,
            fuel as nat,
        ) {
            ExecR::Done(val, is_ret, st2) => r is Ok && opt_val_view(r->Ok_0.0) == val
                && r->Ok_0.1 == is_ret && cur_st(*final(arena), *final(out)) == st2,
            ExecR::Broke(em, st2) => r is Err && err_view(r->Err_0) == em && cur_st(
                *final(arena),
                *final(out),
            ) == st2,
        },
    decreases fuel, **body, 2int,
{
    execute(&**body, env, arena, out, locals, true, fuel)
}

/// What an optional value stands for.
pub open spec fn opt_val_view(v: Option<Literal>) -> Option<ValueM> {
    match v {
        Some(l) => Some(lit_view(l)),
        None => None,
    }
}


/// Executes one statement.
#[verifier::rlimit(100)]
fn execute(
    s: &Stmt,
    env: usize,
    arena: &mut Environment,
    out: &mut Vec<String>,
    locals: &Locals,
    in_fun: bool,
    fuel: u64,
) -> (r: Result<(Option<Literal>, bool), Error>)
    requires
        old(arena).inv(),
        env < old(arena)@.len(),
    ensures
        final(arena).inv(),
        final(arena)@.len() >= old(arena)@.len(),
        match spec_exec(*s, env as int, cur_st(*old(arena), *old(out)), locals@, in_fun, fuel as nat) {
            ExecR::Done(val, is_ret, st2) => r is Ok && opt_val_view(r->Ok_0.0) == val
                && r->Ok_0.1 == is_ret && cur_st(*final(arena), *final(out)) == st2,
            ExecR::Broke(em, st2) => r is Err && err_view(r->Err_0) == em && cur_st(
                *final(arena),
                *final(out),
            ) == st2,
        },
    decreases fuel, *s, 1int,
{
    let ghost st0 = cur_st(*arena, *out);
    match s {
        Stmt::Expression(e) => {
            let res = evaluate(e, env, arena, out, locals, in_fun, fuel);
            match res {
                Ok(v) => Ok((Some(v), false)),
                Err(er) => Err(er),
            }
        },
        Stmt::Print(e) => {
            let res = evaluate(e, env, arena, out, locals, in_fun, fuel);
            match res {
                Ok(v) => {
                    let ghost pre_out = out.deep_view();
                    let line = crate::ast::display_value(&v);
                    out.push(line);
                    proof {
                        assert(out.deep_view() =~= pre_out.push(
                            spec_display(lit_view(v)),
                        ));
                    }
                    Ok((None, false))
                },
                Err(er) => Err(er),
            }
        },
        Stmt::VarDecl { name, initializer, .. } => {
            let binding = match initializer {
                Some(e) => {
                    let res = evaluate(e, env, arena, out, locals, in_fun, fuel);
                    match res {
                        Ok(v) => Some(v),
                        Err(er) => {
                            return Err(er);
                        },
                    }
                },
                None => None,
            };
            arena.define(env, name.as_str(), binding);
            Ok((None, false))
        },
        Stmt::If { condition, then_branch, else_branch } => {
            let res = evaluate(condition, env, arena, out, locals, in_fun, fuel);
            match res {
                Ok(v) => {
                    if v.is_truthy() {
                        execute(then_branch, env, arena, out, locals, in_fun, fuel)
                    } else {
                        match else_branch {
                            Some(el) => execute(el, env, arena, out, locals, in_fun, fuel),
                            None => Ok((None, false)),
                        }
                    }
                },
                Err(er) => Err(er),
            }
        },
        Stmt::While { condition, body } => {
            let mut f = fuel;
            loop
                invariant
                    arena.inv(),
                    arena@.len() >= old(arena)@.len(),
                    env < old(arena)@.len(),
                    f <= fuel,
                    *s is While,
                    s->While_condition == *condition,
                    s->While_body == *body,
                    st0 == cur_st(*old(arena), *old(out)),
                    spec_exec(*s, env as int, st0, locals@, in_fun, fuel as nat) == spec_exec(
                        *s,
                        env as int,
                        cur_st(*arena, *out),
                        locals@,
                        in_fun,
                        f as nat,
                    ),
                decreases f,
            {
                let res = evaluate(condition, env, arena, out, locals, in_fun, f);
                match res {
                    Ok(v) => {
                        if !v.is_truthy() {
                            return Ok((None, false));
                        }
                        let res2 = execute(body, env, arena, out, locals, in_fun, f);
                        match res2 {
                            Ok((val, true)) => {
                                return Ok((val, true));
                            },
                            Ok((_, false)) => {
                                if f == 0 {
                                    return Err(
                                        Error::RecursionLimit { location: condition.location() },
                                    );
                                }
                                f = f - 1;
                            },
                            Err(er) => {
                                return Err(er);
                            },
                        }
                    },
                    Err(er) => {
                        return Err(er);
                    },
                }
            }
        },
        Stmt::Block(v) => {
            let ghost pre_env = arena@;
            let child = arena.new_with_parent(env);
            let ghost st1 = cur_st(*arena, *out);
            proof {
                assert(v@.subrange(0, v@.len() as int) =~= v@);
                assert(st1.env =~= old(arena)@.push(
                    FrameM { parent: Some(env), vals: Map::empty() },
                ));
            }
            let mut i: usize = 0;
            while i < v.len()
                invariant
                    arena.inv(),
                    arena@.len() >= old(arena)@.len(),
                    child < arena@.len(),
                    child == old(arena)@.len(),
                    st1 == (StM {
                        env: old(arena)@.push(FrameM { parent: Some(env), vals: Map::empty() }),
                        out: old(out).deep_view(),
                    }),
                    *s is Block,
                    s->Block_0 == *v,
                    i <= v@.len(),
                    spec_exec_list(v@, child as int, st1, locals@, in_fun, fuel as nat)
                        == spec_exec_list(
                        v@.subrange(i as int, v@.len() as int),
                        child as int,
                        cur_st(*arena, *out),
                        locals@,
                        in_fun,
                        fuel as nat,
                    ),
                decreases v@.len() - i,
            {
                let ghost pre = v@.subrange(i as int, v@.len() as int);
                let res = execute(&v[i], child, arena, out, locals, in_fun, fuel);
                proof {
                    assert(pre[0] == v@[i as int]);
                    assert(pre.subrange(1, pre.len() as int) =~= v@.subrange(
                        i + 1,
                        v@.len() as int,
                    ));
                }
                match res {
                    Ok((val, true)) => {
                        return Ok((val, true));
                    },
                    Ok((_, false)) => {
                        i = i + 1;
                    },
                    Err(er) => {
                        return Err(er);
                    },
                }
            }
            proof {
                assert(v@.subrange(v@.len() as int, v@.len() as int) =~= Seq::<Stmt>::empty());
            }
            Ok((None, false))
        },
        Stmt::FunDecl { name, params, body } => {
            let fv = Literal::Function {
                params: crate::text::clone_strings(params),
                body: crate::ast::share_body(body),
                closure: env,
            };
            arena.define(env, name.as_str(), Some(fv));
            Ok((None, false))
        },
        Stmt::Return(e) => {
            if !in_fun {
                return Err(Error::ReturnOutsideFunction { location: e.location() });
            }
            let res = evaluate(e, env, arena, out, locals, in_fun, fuel);
            match res {
                Ok(v) => Ok((Some(v), true)),
                Err(er) => Err(er),
            }
        },
    }
}

/// The tree evaluator's root: the global frame, the resolved map, and what
/// running a program against them yields.
pub struct Interpreter {
    pub env: Environment,
    pub locals: Locals,
}

impl Interpreter {
    /// A fresh interpreter with one empty global frame and no resolved map.
    pub fn new() -> (r: Self)
        ensures
            r.env.inv(),
            r.env@ =~= seq![
                crate::environment::FrameM {
                    parent: None,
                    vals: Map::<Seq<char>, Option<ValueM>>::empty(),
                },
            ],
            r.locals@ =~= Map::<SourceLocation, usize>::empty(),
    {
        Interpreter { env: Environment::new(), locals: Locals::new() }
    }

    /// A fresh interpreter that looks variables up at the given depths.
    pub fn new_with_locals(locals: Locals) -> (r: Self)
        ensures
            r.env.inv(),
            r.env@ =~= seq![
                crate::environment::FrameM {
                    parent: None,
                    vals: Map::<Seq<char>, Option<ValueM>>::empty(),
                },
            ],
            r.locals == locals,
    {
        Interpreter { env: Environment::new(), locals }
    }

    /// Runs a program: each statement in order against the global frame,
    /// appending every printed line to `out`, yielding the last statement's
    /// value, or stopping at the first failure. Globals persist in the
    /// interpreter across runs, so a prompt keeps its state.
    pub fn interpret(&mut self, stmts: &Vec<Stmt>, out: &mut Vec<String>) -> (r: Result<
        Option<Literal>,
        Error,
    >)
        requires
            old(self).env.inv(),
            old(self).env@.len() >= 1,
        ensures
            final(self).env.inv(),
            final(self).env@.len() >= 1,
            final(self).locals == old(self).locals,
            match spec_interpret(
                stmts@,
                StM { env: old(self).env@, out: old(out).deep_view() },
                old(self).locals@,
                None,
                u64::MAX as nat,
            ) {
                InterpR::IOk(val, st2) => r is Ok && opt_val_view(r->Ok_0) == val
                    && final(self).env@ == st2.env && final(out).deep_view() == st2.out,
                InterpR::IErr(em, st2) => r is Err && err_view(r->Err_0) == em
                    && final(self).env@ == st2.env && final(out).deep_view() == st2.out,
            },
    {
        let ghost st_init = StM { env: self.env@, out: out.deep_view() };
        proof {
            assert(stmts@.subrange(0, stmts@.len() as int) =~= stmts@);
        }
        let mut prev: Option<Literal> = None;
        let mut i: usize = 0;
        while i < stmts.len()
            invariant
                self.env.inv(),
                self.env@.len() >= 1,
                self.locals == old(self).locals,
                i <= stmts@.len(),
                st_init == (StM { env: old(self).env@, out: old(out).deep_view() }),
                spec_interpret(stmts@, st_init, old(self).locals@, None, u64::MAX as nat)
                    == spec_interpret(
                    stmts@.subrange(i as int, stmts@.len() as int),
                    cur_st(self.env, *out),
                    old(self).locals@,
                    opt_val_view(prev),
                    u64::MAX as nat,
                ),
            decreases stmts@.len() - i,
        {
            let ghost pre = stmts@.subrange(i as int, stmts@.len() as int);
            let res = execute(
                &stmts[i],
                0,
                &mut self.env,
                out,
                &self.locals,
                false,
                u64::MAX,
            );
            proof {
                assert(pre[0] == stmts@[i as int]);
                assert(pre.subrange(1, pre.len() as int) =~= stmts@.subrange(
                    i + 1,
                    stmts@.len() as int,
                ));
            }
            match res {
                Ok((val, _)) => {
                    prev = val;
                },
                Err(er) => {
                    return Err(er);
                },
            }
            i = i + 1;
        }
        proof {
            assert(stmts@.subrange(stmts@.len() as int, stmts@.len() as int)
                =~= Seq::<Stmt>::empty());
        }
        Ok(prev)
    }
}


/// The one-line text a runtime failure prints as.
pub open spec fn spec_message(e: ErrM) -> Seq<char> {
    spec_what(e) + " [line "@ + crate::number::spec_dec_digits(spec_err_line(e) as nat)
        + "] in script"@
}

/// The wording of each failure kind.
pub open spec fn spec_what(e: ErrM) -> Seq<char> {
    match e {
        ErrM::TypeMismatch { .. } => "TypeMismatch"@,
        ErrM::DivisionByZero { .. } => "DivisionByZero"@,
        ErrM::UndefinedVariable { .. } => "UndefinedVariable"@,
        ErrM::UninitializedVariable { .. } => "UninitializedVariable"@,
        ErrM::ArityMismatch { .. } => "ArityMismatch"@,
        ErrM::NotCallable { .. } => "NotCallable"@,
        ErrM::ReturnOutsideFunction { .. } => "ReturnOutsideFunction"@,
        ErrM::RecursionLimit { .. } => "RecursionLimit"@,
    }
}

/// The source line a failure names.
pub open spec fn spec_err_line(e: ErrM) -> usize {
    match e {
        ErrM::TypeMismatch { location } => location.line,
        ErrM::DivisionByZero { location } => location.line,
        ErrM::UndefinedVariable { location, .. } => location.line,
        ErrM::UninitializedVariable { location, .. } => location.line,
        ErrM::ArityMismatch { location, .. } => location.line,
        ErrM::NotCallable { location } => location.line,
        ErrM::ReturnOutsideFunction { location } => location.line,
        ErrM::RecursionLimit { location } => location.line,
    }
}

impl Error {
    /// The location the failure names.
    pub fn location(&self) -> (r: SourceLocation)
        ensures
            r.line == spec_err_line(err_view(*self)),
    {
        match self {
            Error::TypeMismatch { location } => *location,
            Error::DivisionByZero { location } => *location,
            Error::UndefinedVariable { location, .. } => *location,
            Error::UninitializedVariable { location, .. } => *location,
            Error::ArityMismatch { location, .. } => *location,
            Error::NotCallable { location } => *location,
            Error::ReturnOutsideFunction { location } => *location,
            Error::RecursionLimit { location } => *location,
        }
    }

    /// The failure as the one line the language reports:
    /// the kind, then `[line N] in script`.
    pub fn message(&self) -> (r: String)
        ensures
            r@ == spec_message(err_view(*self)),
    {
        let what = match self {
            Error::TypeMismatch { .. } => <String as vstd::string::StringExecFns>::from_str(
                "TypeMismatch",
            ),
            Error::DivisionByZero { .. } => <String as vstd::string::StringExecFns>::from_str(
                "DivisionByZero",
            ),
            Error::UndefinedVariable { .. } => <String as vstd::string::StringExecFns>::from_str(
                "UndefinedVariable",
            ),
            Error::UninitializedVariable { .. } => <String as vstd::string::StringExecFns>::from_str(
                "UninitializedVariable",
            ),
            Error::ArityMismatch { .. } => <String as vstd::string::StringExecFns>::from_str(
                "ArityMismatch",
            ),
            Error::NotCallable { .. } => <String as vstd::string::StringExecFns>::from_str(
                "NotCallable",
            ),
            Error::ReturnOutsideFunction { .. } => <String as vstd::string::StringExecFns>::from_str(
                "ReturnOutsideFunction",
            ),
            Error::RecursionLimit { .. } => <String as vstd::string::StringExecFns>::from_str(
                "RecursionLimit",
            ),
        };
        let line = self.location().line;
        let digits = crate::number::dec_digits(line as u64);
        let r = what.concat(" [line ").concat(digits.as_str()).concat("] in script");
        proof {
            assert(r@ =~= spec_message(err_view(*self)));
        }
        r
    }
}

} // verus!
