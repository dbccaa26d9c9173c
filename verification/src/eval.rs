//! The evaluator.
use crate::builtin::{apply_builtin_op, apply_named_spec, builtin_named, result_view};
use crate::data::{Expr, ExprView, clone_names, exprs_view, strings_view};
use crate::env::Env;
use crate::error::{EvalError, EvalErrorView};
use crate::number::{ArithOp, computes, accepts};
use crate::text::same_text;
use vstd::prelude::*;
use vstd::slice::slice_subrange;

verus! {

/// How an evaluation ends: with a value or an error, and with the
/// environment as the evaluation leaves it.
pub ghost struct Outcome {
    pub result: Result<ExprView, EvalErrorView>,
    pub env: Map<Seq<char>, ExprView>,
}

/// How the evaluation of a list of operands ends.
pub ghost struct ArgsOutcome {
    pub result: Result<Seq<ExprView>, EvalErrorView>,
    pub env: Map<Seq<char>, ExprView>,
}

/// The value of `e` in `env`, with arithmetic as `m` computes it, when
/// evaluations may nest `depth` deep.
///
/// A symbol is looked up. A non-empty list is a special form when its head is
/// the symbol `define`, `lambda` or `if`, and else an application. Everything
/// else is its own value.
pub open spec fn eval_spec(
    m: spec_fn(ArithOp, u64, u64) -> u64,
    e: ExprView,
    env: Map<Seq<char>, ExprView>,
    depth: nat,
) -> Outcome
    decreases depth, 0nat, 0nat,
{
    if depth == 0 {
        Outcome { result: Err(EvalErrorView::DepthExceeded), env }
    } else {
        match e {
            ExprView::Symbol(name) => if env.contains_key(name) {
                Outcome { result: Ok(env[name]), env }
            } else {
                Outcome { result: Err(EvalErrorView::UndefinedVariable(name)), env }
            },
            ExprView::List(items) => if items.len() == 0 {
                Outcome { result: Ok(e), env }
            } else if items[0] == ExprView::Symbol("define"@) {
                define_spec(m, items.drop_first(), env, (depth - 1) as nat)
            } else if items[0] == ExprView::Symbol("lambda"@) {
                Outcome { result: lambda_spec(items.drop_first()), env }
            } else if items[0] == ExprView::Symbol("if"@) {
                if_spec(m, items.drop_first(), env, (depth - 1) as nat)
            } else {
                apply_spec(m, items[0], items.drop_first(), env, (depth - 1) as nat)
            },
            _ => Outcome { result: Ok(e), env },
        }
    }
}

/// `(define name value)`: evaluates `value`, binds `name` to it in `env` and
/// gives the symbol `name`.
pub open spec fn define_spec(
    m: spec_fn(ArithOp, u64, u64) -> u64,
    args: Seq<ExprView>,
    env: Map<Seq<char>, ExprView>,
    depth: nat,
) -> Outcome
    decreases depth, 2nat, 0nat,
{
    if args.len() != 2 {
        Outcome { result: Err(EvalErrorView::InvalidDefine), env }
    } else {
        match args[0] {
            ExprView::Symbol(name) => {
                let value = eval_spec(m, args[1], env, depth);
                match value.result {
                    Ok(v) => Outcome { result: Ok(args[0]), env: value.env.insert(name, v) },
                    Err(_) => value,
                }
            },
            _ => Outcome { result: Err(EvalErrorView::InvalidDefineTarget), env },
        }
    }
}

/// Whether every parameter is a symbol.
pub open spec fn all_symbols(params: Seq<ExprView>) -> bool {
    forall|i: int| 0 <= i < params.len() ==> (#[trigger] params[i]) is Symbol
}

/// The names of the parameters, which are symbols.
pub open spec fn symbol_names(params: Seq<ExprView>) -> Seq<Seq<char>> {
    Seq::new(params.len(), |i: int| params[i]->Symbol_0)
}

/// `(lambda (name ...) body)`: the procedure with these parameters and this
/// body, which is not evaluated.
pub open spec fn lambda_spec(args: Seq<ExprView>) -> Result<ExprView, EvalErrorView> {
    if args.len() != 2 {
        Err(EvalErrorView::InvalidLambda)
    } else {
        match args[0] {
            ExprView::List(params) => if all_symbols(params) {
                Ok(ExprView::Func { params: symbol_names(params), body: Box::new(args[1]) })
            } else {
                Err(EvalErrorView::InvalidLambdaParam)
            },
            _ => Err(EvalErrorView::InvalidLambdaParams),
        }
    }
}

/// `(if condition then else)`: evaluates the condition and then exactly one
/// of the branches.
pub open spec fn if_spec(
    m: spec_fn(ArithOp, u64, u64) -> u64,
    args: Seq<ExprView>,
    env: Map<Seq<char>, ExprView>,
    depth: nat,
) -> Outcome
    decreases depth, 2nat, 0nat,
{
    if args.len() != 3 {
        Outcome { result: Err(EvalErrorView::InvalidIf), env }
    } else {
        let condition = eval_spec(m, args[0], env, depth);
        match condition.result {
            Ok(ExprView::Bool(b)) => eval_spec(
                m,
                if b {
                    args[1]
                } else {
                    args[2]
                },
                condition.env,
                depth,
            ),
            Ok(_) => Outcome {
                result: Err(EvalErrorView::NonBooleanCondition),
                env: condition.env,
            },
            Err(_) => condition,
        }
    }
}

/// The values of `args`, evaluated from left to right, each in the
/// environment that the one before it left; the first error ends it.
pub open spec fn eval_args_spec(
    m: spec_fn(ArithOp, u64, u64) -> u64,
    args: Seq<ExprView>,
    env: Map<Seq<char>, ExprView>,
    depth: nat,
) -> ArgsOutcome
    decreases depth, 1nat, args.len(),
{
    if args.len() == 0 {
        ArgsOutcome { result: Ok(Seq::empty()), env }
    } else {
        let first = eval_spec(m, args[0], env, depth);
        match first.result {
            Err(e) => ArgsOutcome { result: Err(e), env: first.env },
            Ok(value) => after_values(
                seq![value],
                eval_args_spec(m, args.drop_first(), first.env, depth),
            ),
        }
    }
}

/// Puts `values` before the values of `rest`.
pub open spec fn after_values(values: Seq<ExprView>, rest: ArgsOutcome) -> ArgsOutcome {
    match rest.result {
        Ok(more) => ArgsOutcome { result: Ok(values + more), env: rest.env },
        Err(_) => rest,
    }
}

/// `env` with each of `params` bound to the value at its place in `values`;
/// of two parameters with one name the later counts.
pub open spec fn bind(
    env: Map<Seq<char>, ExprView>,
    params: Seq<Seq<char>>,
    values: Seq<ExprView>,
) -> Map<Seq<char>, ExprView>
    decreases params.len(),
{
    if params.len() == 0 || values.len() == 0 {
        env
    } else {
        bind(env, params.drop_last(), values.drop_last()).insert(params.last(), values.last())
    }
}

/// The application `(op args...)`.
///
/// The operands are evaluated first. An operator symbol that names a built-in
/// operator is applied to them. Else the operator is evaluated; it must give
/// a procedure with as many parameters as there are operands. The body is
/// evaluated in a copy of the environment of the call, with the parameters
/// bound to the operands' values; what the body binds or rebinds stays in
/// that copy.
pub open spec fn apply_spec(
    m: spec_fn(ArithOp, u64, u64) -> u64,
    op: ExprView,
    args: Seq<ExprView>,
    env: Map<Seq<char>, ExprView>,
    depth: nat,
) -> Outcome
    decreases depth, 2nat, 0nat,
{
    let operands = eval_args_spec(m, args, env, depth);
    match operands.result {
        Err(e) => Outcome { result: Err(e), env: operands.env },
        Ok(values) => match builtin_result(m, op, values) {
            Some(result) => Outcome { result, env: operands.env },
            None => {
                let operator = eval_spec(m, op, operands.env, depth);
                match operator.result {
                    Ok(ExprView::Func { params, body }) => if params.len() != values.len() {
                        Outcome {
                            result: Err(
                                EvalErrorView::ArityMismatch {
                                    expected: params.len(),
                                    received: values.len(),
                                },
                            ),
                            env: operator.env,
                        }
                    } else {
                        Outcome {
                            result: eval_spec(
                                m,
                                *body,
                                bind(operator.env, params, values),
                                depth,
                            ).result,
                            env: operator.env,
                        }
                    },
                    Ok(_) => Outcome {
                        result: Err(EvalErrorView::NotAFunction(op)),
                        env: operator.env,
                    },
                    Err(_) => operator,
                }
            },
        },
    }
}

/// What a built-in operator gives when `op` is a symbol that names one.
pub open spec fn builtin_result(
    m: spec_fn(ArithOp, u64, u64) -> u64,
    op: ExprView,
    values: Seq<ExprView>,
) -> Option<Result<ExprView, EvalErrorView>> {
    match op {
        ExprView::Symbol(name) => apply_named_spec(m, name, values),
        _ => None,
    }
}

/// What the result `r` and the environment `env` of an evaluation stand for.
pub open spec fn outcome(r: Result<Expr, EvalError>, env: Map<Seq<char>, ExprView>) -> Outcome {
    Outcome { result: result_view(r), env }
}

/// What the result `r` and the environment `env` of evaluating operands stand
/// for.
pub open spec fn args_outcome(
    r: Result<Vec<Expr>, EvalError>,
    env: Map<Seq<char>, ExprView>,
) -> ArgsOutcome {
    match r {
        Ok(values) => ArgsOutcome { result: Ok(exprs_view(values@)), env },
        Err(e) => ArgsOutcome { result: Err(e@), env },
    }
}

/// Evaluates `expr` in `env`, nesting as deep as the machine's stack allows.
/// `arith` adds, subtracts, multiplies and divides; whatever function it
/// computes, the value is the one that [`eval_spec`] gives with that function.
///
/// A `define` binds in `env`; what was bound before an error stays bound.
pub fn eval<A: Fn(ArithOp, u64, u64) -> u64>(expr: &Expr, env: &mut Env, arith: &A) -> (r: Result<
    Expr,
    EvalError,
>)
    requires
        accepts(arith),
    ensures
        forall|m: spec_fn(ArithOp, u64, u64) -> u64|
            computes(arith, m) ==> outcome(r, final(env)@) == #[trigger] eval_spec(
                m,
                expr@,
                old(env)@,
                usize::MAX as nat,
            ),
{
    eval_within(expr, env, arith, usize::MAX)
}

/// Evaluates `expr` in `env`, with evaluations nesting at most `depth` deep:
/// one that would nest deeper fails with [`EvalError::DepthExceeded`].
pub fn eval_within<A: Fn(ArithOp, u64, u64) -> u64>(
    expr: &Expr,
    env: &mut Env,
    arith: &A,
    depth: usize,
) -> (r: Result<Expr, EvalError>)
    requires
        accepts(arith),
    ensures
        forall|m: spec_fn(ArithOp, u64, u64) -> u64|
            computes(arith, m) ==> outcome(r, final(env)@) == #[trigger] eval_spec(
                m,
                expr@,
                old(env)@,
                depth as nat,
            ),
    decreases depth, 0nat,
{
    if depth == 0 {
        return Err(EvalError::DepthExceeded);
    }
    let ghost d = (depth - 1) as nat;
    match expr {
        Expr::Symbol(name) => match env.get(name.as_str()) {
            Some(value) => Ok(value.clone()),
            None => Err(EvalError::UndefinedVariable(name.clone())),
        },
        Expr::List(list) => {
            let ghost items = exprs_view(list@);
            proof {
                Expr::lemma_list_view(*list);
            }
            if list.len() == 0 {
                let empty: Vec<Expr> = Vec::new();
                proof {
                    Expr::lemma_list_view(empty);
                    assert(exprs_view(empty@) =~= items);
                }
                return Ok(Expr::List(empty));
            }
            let first = &list[0];
            let args = slice_subrange(list.as_slice(), 1, list.len());
            proof {
                assert(exprs_view(args@) =~= items.drop_first());
                assert(items[0] == first@);
            }
            match first {
                Expr::Symbol(s) => {
                    if same_text(s.as_str(), "define") {
                        let r = eval_define(args, env, arith, depth - 1);
                        proof {
                            assert forall|m: spec_fn(ArithOp, u64, u64) -> u64|
                                computes(arith, m) implies outcome(r, env@) == #[trigger] eval_spec(
                                m,
                                expr@,
                                old(env)@,
                                depth as nat,
                            ) by {
                                assert(define_spec(m, items.drop_first(), old(env)@, d) == outcome(
                                    r,
                                    env@,
                                ));
                            }
                        }
                        r
                    } else if same_text(s.as_str(), "lambda") {
                        eval_lambda(args)
                    } else if same_text(s.as_str(), "if") {
                        let r = eval_if(args, env, arith, depth - 1);
                        proof {
                            assert forall|m: spec_fn(ArithOp, u64, u64) -> u64|
                                computes(arith, m) implies outcome(r, env@) == #[trigger] eval_spec(
                                m,
                                expr@,
                                old(env)@,
                                depth as nat,
                            ) by {
                                assert(if_spec(m, items.drop_first(), old(env)@, d) == outcome(
                                    r,
                                    env@,
                                ));
                            }
                        }
                        r
                    } else {
                        let r = apply_procedure(first, args, env, arith, depth - 1);
                        proof {
                            assert forall|m: spec_fn(ArithOp, u64, u64) -> u64|
                                computes(arith, m) implies outcome(r, env@) == #[trigger] eval_spec(
                                m,
                                expr@,
                                old(env)@,
                                depth as nat,
                            ) by {
                                assert(apply_spec(m, items[0], items.drop_first(), old(env)@, d)
                                    == outcome(r, env@));
                            }
                        }
                        r
                    }
                },
                _ => {
                    let r = apply_procedure(first, args, env, arith, depth - 1);
                    proof {
                        assert forall|m: spec_fn(ArithOp, u64, u64) -> u64|
                            computes(arith, m) implies outcome(r, env@) == #[trigger] eval_spec(
                            m,
                            expr@,
                            old(env)@,
                            depth as nat,
                        ) by {
                            assert(apply_spec(m, items[0], items.drop_first(), old(env)@, d)
                                == outcome(r, env@));
                        }
                    }
                    r
                },
            }
        },
        _ => Ok(expr.clone()),
    }
}

/// Evaluates `(define name value)`, given its two operands.
pub fn eval_define<A: Fn(ArithOp, u64, u64) -> u64>(
    args: &[Expr],
    env: &mut Env,
    arith: &A,
    depth: usize,
) -> (r: Result<Expr, EvalError>)
    requires
        accepts(arith),
    ensures
        forall|m: spec_fn(ArithOp, u64, u64) -> u64|
            computes(arith, m) ==> outcome(r, final(env)@) == #[trigger] define_spec(
                m,
                exprs_view(args@),
                old(env)@,
                depth as nat,
            ),
    decreases depth, 2nat,
{
    if args.len() != 2 {
        return Err(EvalError::InvalidDefine);
    }
    let ghost views = exprs_view(args@);
    let ghost d = depth as nat;
    proof {
        assert(views[0] == args@[0]@);
        assert(views[1] == args@[1]@);
    }
    match &args[0] {
        Expr::Symbol(name) => {
            let value = eval_within(&args[1], env, arith, depth);
            let ghost env_value = env@;
            let r = match value {
                Ok(value) => {
                    env.insert(name.clone(), value);
                    Ok(Expr::Symbol(name.clone()))
                },
                Err(e) => Err(e),
            };
            proof {
                assert forall|m: spec_fn(ArithOp, u64, u64) -> u64|
                    computes(arith, m) implies outcome(r, env@) == #[trigger] define_spec(
                    m,
                    views,
                    old(env)@,
                    d,
                ) by {
                    assert(eval_spec(m, views[1], old(env)@, d) == outcome(value, env_value));
                }
            }
            r
        },
        _ => Err(EvalError::InvalidDefineTarget),
    }
}

/// Evaluates `(lambda (name ...) body)`, given its two operands.
pub fn eval_lambda(args: &[Expr]) -> (r: Result<Expr, EvalError>)
    ensures
        result_view(r) == lambda_spec(exprs_view(args@)),
{
    if args.len() != 2 {
        return Err(EvalError::InvalidLambda);
    }
    proof {
        assert(exprs_view(args@)[0] == args@[0]@);
        assert(exprs_view(args@)[1] == args@[1]@);
    }
    let listed = match &args[0] {
        Expr::List(listed) => listed,
        _ => {
            return Err(EvalError::InvalidLambdaParams);
        },
    };
    let ghost views = exprs_view(listed@);
    proof {
        Expr::lemma_list_view(*listed);
    }
    let mut params: Vec<String> = Vec::new();
    let mut i: usize = 0;
    while i < listed.len()
        invariant
            i <= listed.len(),
            views == exprs_view(listed@),
            args@.len() == 2,
            exprs_view(args@)[0] == ExprView::List(views),
            params.len() == i,
            forall|j: int|
                0 <= j < i ==> (#[trigger] views[j]) is Symbol && params@[j]@ == views[j]->Symbol_0,
        decreases listed.len() - i,
    {
        match &listed[i] {
            Expr::Symbol(name) => {
                params.push(name.clone());
            },
            _ => {
                proof {
                    assert(!(views[i as int] is Symbol));
                }
                return Err(EvalError::InvalidLambdaParam);
            },
        }
        i += 1;
    }
    proof {
        assert(strings_view(params@) =~= symbol_names(views));
    }
    let body = Box::new(args[1].clone());
    Ok(Expr::Func { params, body })
}

/// Evaluates `(if condition then else)`, given its three operands.
pub fn eval_if<A: Fn(ArithOp, u64, u64) -> u64>(
    args: &[Expr],
    env: &mut Env,
    arith: &A,
    depth: usize,
) -> (r: Result<Expr, EvalError>)
    requires
        accepts(arith),
    ensures
        forall|m: spec_fn(ArithOp, u64, u64) -> u64|
            computes(arith, m) ==> outcome(r, final(env)@) == #[trigger] if_spec(
                m,
                exprs_view(args@),
                old(env)@,
                depth as nat,
            ),
    decreases depth, 2nat,
{
    if args.len() != 3 {
        return Err(EvalError::InvalidIf);
    }
    let ghost views = exprs_view(args@);
    let ghost d = depth as nat;
    proof {
        assert(views[0] == args@[0]@);
        assert(views[1] == args@[1]@);
        assert(views[2] == args@[2]@);
    }
    let condition = eval_within(&args[0], env, arith, depth);
    let ghost env_condition = env@;
    let r = match condition {
        Ok(Expr::Bool(b)) => {
            if b {
                eval_within(&args[1], env, arith, depth)
            } else {
                eval_within(&args[2], env, arith, depth)
            }
        },
        Ok(_) => Err(EvalError::NonBooleanCondition),
        Err(e) => Err(e),
    };
    proof {
        assert forall|m: spec_fn(ArithOp, u64, u64) -> u64| computes(arith, m) implies outcome(
            r,
            env@,
        ) == #[trigger] if_spec(m, views, old(env)@, d) by {
            assert(eval_spec(m, views[0], old(env)@, d) == outcome(condition, env_condition));
            if let Ok(Expr::Bool(b)) = condition {
                if b {
                    assert(eval_spec(m, views[1], env_condition, d) == outcome(r, env@));
                } else {
                    assert(eval_spec(m, views[2], env_condition, d) == outcome(r, env@));
                }
            }
        }
    }
    r
}

/// Evaluates the operands `args` from left to right into `values`, stopping
/// at the first error.
pub fn eval_operands<A: Fn(ArithOp, u64, u64) -> u64>(
    args: &[Expr],
    env: &mut Env,
    arith: &A,
    depth: usize,
) -> (r: Result<Vec<Expr>, EvalError>)
    requires
        accepts(arith),
    ensures
        forall|m: spec_fn(ArithOp, u64, u64) -> u64|
            computes(arith, m) ==> args_outcome(r, final(env)@) == #[trigger] eval_args_spec(
                m,
                exprs_view(args@),
                old(env)@,
                depth as nat,
            ),
    decreases depth, 1nat,
{
    let ghost views = exprs_view(args@);
    let ghost d = depth as nat;
    let mut values: Vec<Expr> = Vec::new();
    let mut i: usize = 0;
    proof {
        assert forall|m: spec_fn(ArithOp, u64, u64) -> u64|
            after_values(exprs_view(values@), eval_args_spec(m, views.skip(0), env@, d))
                == #[trigger] eval_args_spec(m, views, old(env)@, d) by {
            assert(views.skip(0) =~= views);
            let all = eval_args_spec(m, views, env@, d);
            if let Ok(more) = all.result {
                assert(exprs_view(values@) + more =~= more);
            }
        }
    }
    while i < args.len()
        invariant
            i <= args.len(),
            accepts(arith),
            views == exprs_view(args@),
            d == depth as nat,
            forall|m: spec_fn(ArithOp, u64, u64) -> u64|
                computes(arith, m) ==> after_values(
                    exprs_view(values@),
                    eval_args_spec(m, views.skip(i as int), env@, d),
                ) == #[trigger] eval_args_spec(m, views, old(env)@, d),
        decreases args.len() - i,
    {
        let ghost before = exprs_view(values@);
        let ghost env_before = env@;
        let ghost tail = views.skip(i as int);
        proof {
            assert(tail[0] == args@[i as int]@);
            assert(tail.drop_first() =~= views.skip(i + 1));
        }
        let value = eval_within(&args[i], env, arith, depth);
        match value {
            Err(e) => {
                proof {
                    assert forall|m: spec_fn(ArithOp, u64, u64) -> u64|
                        computes(arith, m) implies args_outcome(Err(e), env@)
                        == #[trigger] eval_args_spec(m, views, old(env)@, d) by {
                        assert(eval_spec(m, tail[0], env_before, d) == outcome(value, env@));
                        let here = eval_args_spec(m, tail, env_before, d);
                        assert(here == ArgsOutcome { result: Err(e@), env: env@ });
                        assert(after_values(before, here) == here);
                    }
                }
                return Err(e);
            },
            Ok(value) => {
                values.push(value);
                proof {
                    assert forall|m: spec_fn(ArithOp, u64, u64) -> u64|
                        computes(arith, m) implies after_values(
                        exprs_view(values@),
                        eval_args_spec(m, views.skip(i + 1), env@, d),
                    ) == #[trigger] eval_args_spec(m, views, old(env)@, d) by {
                        assert(eval_spec(m, tail[0], env_before, d) == outcome(Ok(value), env@));
                        let here = eval_args_spec(m, tail, env_before, d);
                        let rest = eval_args_spec(m, views.skip(i + 1), env@, d);
                        assert(here == after_values(seq![value@], rest));
                        assert(exprs_view(values@) =~= before + seq![value@]);
                        if let Ok(more) = rest.result {
                            assert(before + (seq![value@] + more) =~= exprs_view(values@) + more);
                        }
                    }
                }
            },
        }
        i += 1;
    }
    proof {
        assert forall|m: spec_fn(ArithOp, u64, u64) -> u64|
            computes(arith, m) implies args_outcome(Ok(values), env@)
            == #[trigger] eval_args_spec(m, views, old(env)@, d) by {
            assert(views.skip(args.len() as int) =~= Seq::<ExprView>::empty());
            let rest = eval_args_spec(m, views.skip(i as int), env@, d);
            assert(rest.result == Ok::<Seq<ExprView>, EvalErrorView>(Seq::empty()));
            assert(exprs_view(values@) + Seq::<ExprView>::empty() =~= exprs_view(values@));
        }
    }
    Ok(values)
}

/// A copy of `env` with each of `params` bound to the value at its place in
/// `values`.
pub fn bind_params(env: &Env, params: &Vec<String>, values: Vec<Expr>) -> (r: Env)
    requires
        params.len() == values.len(),
    ensures
        r@ == bind(env@, strings_view(params@), exprs_view(values@)),
{
    let mut func_env = env.clone();
    let ghost names = strings_view(params@);
    let ghost operands = exprs_view(values@);
    proof {
        assert(names.take(0) =~= Seq::<Seq<char>>::empty());
    }
    let mut k: usize = 0;
    for value in it: values.into_iter()
        invariant
            it.seq() == values@,
            k == it.index(),
            params.len() == values.len(),
            names == strings_view(params@),
            operands == exprs_view(values@),
            func_env@ == bind(env@, names.take(k as int), operands.take(k as int)),
    {
        proof {
            let n1 = names.take(k + 1);
            let v1 = operands.take(k + 1);
            assert(n1.drop_last() =~= names.take(k as int));
            assert(v1.drop_last() =~= operands.take(k as int));
            assert(n1.last() == params@[k as int]@);
            assert(v1.last() == values@[k as int]@);
        }
        func_env.insert(params[k].clone(), value);
        k += 1;
    }
    proof {
        assert(names.take(params.len() as int) =~= names);
        assert(operands.take(params.len() as int) =~= operands);
    }
    func_env
}

/// Evaluates the application of `op_expr` to the operands `args`.
pub fn apply_procedure<A: Fn(ArithOp, u64, u64) -> u64>(
    op_expr: &Expr,
    args: &[Expr],
    env: &mut Env,
    arith: &A,
    depth: usize,
) -> (r: Result<Expr, EvalError>)
    requires
        accepts(arith),
    ensures
        forall|m: spec_fn(ArithOp, u64, u64) -> u64|
            computes(arith, m) ==> outcome(r, final(env)@) == #[trigger] apply_spec(
                m,
                op_expr@,
                exprs_view(args@),
                old(env)@,
                depth as nat,
            ),
    decreases depth, 2nat,
{
    let ghost views = exprs_view(args@);
    let ghost d = depth as nat;
    let operands = eval_operands(args, env, arith, depth);
    let ghost env_operands = env@;
    let values = match operands {
        Ok(values) => values,
        Err(e) => {
            proof {
                assert forall|m: spec_fn(ArithOp, u64, u64) -> u64|
                    computes(arith, m) implies outcome(Err(e), env@) == #[trigger] apply_spec(
                    m,
                    op_expr@,
                    views,
                    old(env)@,
                    d,
                ) by {
                    assert(eval_args_spec(m, views, old(env)@, d) == args_outcome(
                        operands,
                        env_operands,
                    ));
                }
            }
            return Err(e);
        },
    };
    let ghost operand_views = exprs_view(values@);
    match op_expr {
        Expr::Symbol(name) => {
            match apply_builtin_op(name.as_str(), values.as_slice(), arith) {
                Some(r) => {
                    proof {
                        assert forall|m: spec_fn(ArithOp, u64, u64) -> u64|
                            computes(arith, m) implies outcome(r, env@) == #[trigger] apply_spec(
                            m,
                            op_expr@,
                            views,
                            old(env)@,
                            d,
                        ) by {
                            assert(eval_args_spec(m, views, old(env)@, d) == args_outcome(
                                operands,
                                env_operands,
                            ));
                            assert(apply_named_spec(m, name@, operand_views) == Some(
                                result_view(r),
                            ));
                        }
                    }
                    return r;
                },
                None => {},
            }
        },
        _ => {},
    }
    let operator = eval_within(op_expr, env, arith, depth);
    let ghost env_operator = env@;
    let r = match &operator {
        Ok(Expr::Func { params, body }) => {
            if params.len() != values.len() {
                Err(EvalError::ArityMismatch { expected: params.len(), received: values.len() })
            } else {
                let mut func_env = bind_params(env, params, values);
                eval_within(body, &mut func_env, arith, depth)
            }
        },
        Ok(_) => Err(EvalError::NotAFunction(op_expr.clone())),
        Err(_) => operator,
    };
    proof {
        assert forall|m: spec_fn(ArithOp, u64, u64) -> u64| computes(arith, m) implies outcome(
            r,
            env@,
        ) == #[trigger] apply_spec(m, op_expr@, views, old(env)@, d) by {
            assert(eval_args_spec(m, views, old(env)@, d) == args_outcome(operands, env_operands));
            assert(builtin_result(m, op_expr@, operand_views) is None);
            assert(eval_spec(m, op_expr@, env_operands, d) == outcome(operator, env_operator));
            if let Ok(Expr::Func { params, body }) = operator {
                if params.len() == values.len() {
                    let call_env = bind(env_operator, strings_view(params@), operand_views);
                    assert(eval_spec(m, body@, call_env, d).result == result_view(r));
                }
            }
        }
    }
    r
}

} // verus!
