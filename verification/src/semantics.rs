//! What holds of every evaluation.
use crate::builtin::{apply_builtin_spec, has_zero_divisor};
use crate::data::ExprView;
use crate::error::{Builtin, EvalErrorView};
use crate::eval::{
    ArgsOutcome, Outcome, apply_spec, bind, builtin_result, define_spec, eval_args_spec,
    eval_spec, if_spec,
};
use crate::number::ArithOp;
use vstd::prelude::*;

verus! {

/// The expression `(if condition then otherwise)`.
pub open spec fn if_form(condition: ExprView, then: ExprView, otherwise: ExprView) -> ExprView {
    ExprView::List(seq![ExprView::Symbol("if"@), condition, then, otherwise])
}

/// The expression `(define name value)`.
pub open spec fn define_form(name: Seq<char>, value: ExprView) -> ExprView {
    ExprView::List(seq![ExprView::Symbol("define"@), ExprView::Symbol(name), value])
}

proof fn lemma_form_names()
    ensures
        "if"@ != "define"@,
        "if"@ != "lambda"@,
        "define"@ != "lambda"@,
{
    reveal_strlit("if");
    reveal_strlit("define");
    reveal_strlit("lambda");
    assert("if"@.len() == 2);
    assert("define"@.len() == 6);
    assert("lambda"@[0] == 'l');
    assert("define"@[0] == 'd');
}

/// An `if` is the branch that its condition chooses, evaluated where the
/// condition left off: the other branch is not evaluated.
pub proof fn lemma_if_is_chosen_branch(
    m: spec_fn(ArithOp, u64, u64) -> u64,
    condition: ExprView,
    then: ExprView,
    otherwise: ExprView,
    env: Map<Seq<char>, ExprView>,
    depth: nat,
)
    ensures
        eval_spec(m, condition, env, depth).result == Ok::<ExprView, EvalErrorView>(
            ExprView::Bool(true),
        ) ==> eval_spec(m, if_form(condition, then, otherwise), env, depth + 1) == eval_spec(
            m,
            then,
            eval_spec(m, condition, env, depth).env,
            depth,
        ),
        eval_spec(m, condition, env, depth).result == Ok::<ExprView, EvalErrorView>(
            ExprView::Bool(false),
        ) ==> eval_spec(m, if_form(condition, then, otherwise), env, depth + 1) == eval_spec(
            m,
            otherwise,
            eval_spec(m, condition, env, depth).env,
            depth,
        ),
{
    lemma_form_names();
    let items = seq![ExprView::Symbol("if"@), condition, then, otherwise];
    let args = seq![condition, then, otherwise];
    assert(items.drop_first() =~= args);
    assert(eval_spec(m, if_form(condition, then, otherwise), env, depth + 1) == if_spec(
        m,
        args,
        env,
        depth,
    ));
}

/// The branch that an `if` does not take has no part in its outcome: put any
/// other expression in its place, one that would fail too, and the `if`
/// gives the same value and leaves the same environment.
pub proof fn lemma_untaken_branch_is_ignored(
    m: spec_fn(ArithOp, u64, u64) -> u64,
    condition: ExprView,
    taken: ExprView,
    untaken: ExprView,
    other: ExprView,
    env: Map<Seq<char>, ExprView>,
    depth: nat,
)
    ensures
        eval_spec(m, condition, env, depth).result == Ok::<ExprView, EvalErrorView>(
            ExprView::Bool(true),
        ) ==> eval_spec(m, if_form(condition, taken, untaken), env, depth + 1) == eval_spec(
            m,
            if_form(condition, taken, other),
            env,
            depth + 1,
        ),
        eval_spec(m, condition, env, depth).result == Ok::<ExprView, EvalErrorView>(
            ExprView::Bool(false),
        ) ==> eval_spec(m, if_form(condition, untaken, taken), env, depth + 1) == eval_spec(
            m,
            if_form(condition, other, taken),
            env,
            depth + 1,
        ),
{
    lemma_if_is_chosen_branch(m, condition, taken, untaken, env, depth);
    lemma_if_is_chosen_branch(m, condition, taken, other, env, depth);
    lemma_if_is_chosen_branch(m, condition, untaken, taken, env, depth);
    lemma_if_is_chosen_branch(m, condition, other, taken, env, depth);
}

/// A division with a zero among its divisors fails as a division by zero,
/// whatever the arithmetic would compute and whatever the other arguments
/// are.
pub proof fn lemma_zero_divisor_fails(
    m: spec_fn(ArithOp, u64, u64) -> u64,
    args: Seq<ExprView>,
)
    requires
        has_zero_divisor(args),
    ensures
        apply_builtin_spec(m, Builtin::Arith(ArithOp::Div), args) == Err::<ExprView, EvalErrorView>(
            EvalErrorView::DivisionByZero,
        ),
{
}

/// After `(define name value)` has succeeded, `name` evaluates to the value
/// that `value` had.
pub proof fn lemma_define_then_lookup(
    m: spec_fn(ArithOp, u64, u64) -> u64,
    name: Seq<char>,
    value: ExprView,
    env: Map<Seq<char>, ExprView>,
    depth: nat,
    later: nat,
)
    requires
        eval_spec(m, value, env, depth).result is Ok,
        later > 0,
    ensures
        eval_spec(m, define_form(name, value), env, depth + 1).result == Ok::<
            ExprView,
            EvalErrorView,
        >(ExprView::Symbol(name)),
        eval_spec(
            m,
            ExprView::Symbol(name),
            eval_spec(m, define_form(name, value), env, depth + 1).env,
            later,
        ).result == eval_spec(m, value, env, depth).result,
{
    let items = seq![ExprView::Symbol("define"@), ExprView::Symbol(name), value];
    let args = seq![ExprView::Symbol(name), value];
    assert(items.drop_first() =~= args);
    assert(eval_spec(m, define_form(name, value), env, depth + 1) == define_spec(
        m,
        args,
        env,
        depth,
    ));
}

/// The expression `(lambda (params...) body)`.
pub open spec fn lambda_form(params: Seq<ExprView>, body: ExprView) -> ExprView {
    ExprView::List(seq![ExprView::Symbol("lambda"@), ExprView::List(params), body])
}

/// A `lambda` takes nothing from the environment in which it is evaluated
/// and leaves it as it is: in any two environments it gives the same
/// procedure (or fails in the same way).
pub proof fn lemma_lambda_captures_nothing(
    m: spec_fn(ArithOp, u64, u64) -> u64,
    params: Seq<ExprView>,
    body: ExprView,
    env: Map<Seq<char>, ExprView>,
    other: Map<Seq<char>, ExprView>,
    depth: nat,
)
    requires
        depth > 0,
    ensures
        eval_spec(m, lambda_form(params, body), env, depth).result == eval_spec(
            m,
            lambda_form(params, body),
            other,
            depth,
        ).result,
        eval_spec(m, lambda_form(params, body), env, depth).env == env,
{
    lemma_form_names();
}

/// A procedure is applied in the environment of the call. When the operands
/// have their values, no built-in operator is meant and the operator is a
/// procedure with as many parameters as there are operands, the application
/// has the value of the procedure's body in the environment in which the
/// operator was evaluated, with the parameters bound to the operands' values;
/// and it leaves that environment as it was before the parameters were bound.
/// The procedure brings no bindings of its own.
pub proof fn lemma_call_uses_callers_environment(
    m: spec_fn(ArithOp, u64, u64) -> u64,
    op: ExprView,
    args: Seq<ExprView>,
    env: Map<Seq<char>, ExprView>,
    depth: nat,
)
    requires
        eval_args_spec(m, args, env, depth).result is Ok,
        builtin_result(m, op, eval_args_spec(m, args, env, depth).result->Ok_0) is None,
        eval_spec(m, op, eval_args_spec(m, args, env, depth).env, depth).result matches Ok(
            ExprView::Func { params, body },
        ) && params.len() == eval_args_spec(m, args, env, depth).result->Ok_0.len(),
    ensures
        ({
            let operands = eval_args_spec(m, args, env, depth);
            let operator = eval_spec(m, op, operands.env, depth);
            let call = apply_spec(m, op, args, env, depth);
            &&& call.result == eval_spec(
                m,
                *operator.result->Ok_0->Func_body,
                bind(operator.env, operator.result->Ok_0->Func_params, operands.result->Ok_0),
                depth,
            ).result
            &&& call.env == operator.env
        }),
{
}

/// Binding parameters leaves every other name as it was.
pub proof fn lemma_bind_keeps_other_names(
    env: Map<Seq<char>, ExprView>,
    params: Seq<Seq<char>>,
    values: Seq<ExprView>,
    name: Seq<char>,
)
    requires
        params.len() == values.len(),
        !params.contains(name),
    ensures
        bind(env, params, values).contains_key(name) == env.contains_key(name),
        env.contains_key(name) ==> bind(env, params, values)[name] == env[name],
    decreases params.len(),
{
    if params.len() > 0 {
        assert(params.last() == params[params.len() - 1]);
        assert forall|i: int| 0 <= i < params.drop_last().len() implies params.drop_last()[i]
            != name by {
            assert(params.drop_last()[i] == params[i]);
        }
        lemma_bind_keeps_other_names(env, params.drop_last(), values.drop_last(), name);
    }
}

/// A name that a procedure's body uses and that is none of its parameters
/// means, in each call, what it means where the call is made. So a procedure
/// whose body is the name `free`, called where `free` has a binding, gives
/// the value bound there; and called where it has none, fails.
pub proof fn lemma_free_name_is_callers(
    m: spec_fn(ArithOp, u64, u64) -> u64,
    op: ExprView,
    args: Seq<ExprView>,
    env: Map<Seq<char>, ExprView>,
    depth: nat,
    free: Seq<char>,
)
    requires
        depth > 0,
        eval_args_spec(m, args, env, depth).result is Ok,
        builtin_result(m, op, eval_args_spec(m, args, env, depth).result->Ok_0) is None,
        eval_spec(m, op, eval_args_spec(m, args, env, depth).env, depth).result matches Ok(
            ExprView::Func { params, body },
        ) && params.len() == eval_args_spec(m, args, env, depth).result->Ok_0.len()
            && !params.contains(free) && *body == ExprView::Symbol(free),
    ensures
        ({
            let site = eval_spec(m, op, eval_args_spec(m, args, env, depth).env, depth).env;
            apply_spec(m, op, args, env, depth).result == (if site.contains_key(free) {
                Ok::<ExprView, EvalErrorView>(site[free])
            } else {
                Err::<ExprView, EvalErrorView>(EvalErrorView::UndefinedVariable(free))
            })
        }),
{
    let operands = eval_args_spec(m, args, env, depth);
    let operator = eval_spec(m, op, operands.env, depth);
    lemma_bind_keeps_other_names(
        operator.env,
        operator.result->Ok_0->Func_params,
        operands.result->Ok_0,
        free,
    );
}

/// Whether an evaluation ended for want of depth.
pub open spec fn ran_out(result: Result<ExprView, EvalErrorView>) -> bool {
    result == Err::<ExprView, EvalErrorView>(EvalErrorView::DepthExceeded)
}

/// The bound on nesting decides nothing but whether an evaluation gets
/// through: one that ends within some bound, with a value or with an error of
/// its own, ends in the same way within every larger bound.
pub proof fn lemma_deeper_is_same(
    m: spec_fn(ArithOp, u64, u64) -> u64,
    e: ExprView,
    env: Map<Seq<char>, ExprView>,
    depth: nat,
    deeper: nat,
)
    requires
        depth <= deeper,
        !ran_out(eval_spec(m, e, env, depth).result),
    ensures
        eval_spec(m, e, env, deeper) == eval_spec(m, e, env, depth),
    decreases depth, 0nat, 0nat,
{
    if let ExprView::List(items) = e {
        if items.len() > 0 {
            let d = (depth - 1) as nat;
            let dd = (deeper - 1) as nat;
            let args = items.drop_first();
            if items[0] == ExprView::Symbol("define"@) {
                lemma_deeper_define(m, args, env, d, dd);
            } else if items[0] == ExprView::Symbol("lambda"@) {
            } else if items[0] == ExprView::Symbol("if"@) {
                lemma_deeper_if(m, args, env, d, dd);
            } else {
                lemma_deeper_apply(m, items[0], args, env, d, dd);
            }
        }
    }
}

proof fn lemma_deeper_define(
    m: spec_fn(ArithOp, u64, u64) -> u64,
    args: Seq<ExprView>,
    env: Map<Seq<char>, ExprView>,
    depth: nat,
    deeper: nat,
)
    requires
        depth <= deeper,
        !ran_out(define_spec(m, args, env, depth).result),
    ensures
        define_spec(m, args, env, deeper) == define_spec(m, args, env, depth),
    decreases depth, 2nat, 0nat,
{
    if args.len() == 2 && args[0] is Symbol {
        lemma_deeper_is_same(m, args[1], env, depth, deeper);
    }
}

proof fn lemma_deeper_if(
    m: spec_fn(ArithOp, u64, u64) -> u64,
    args: Seq<ExprView>,
    env: Map<Seq<char>, ExprView>,
    depth: nat,
    deeper: nat,
)
    requires
        depth <= deeper,
        !ran_out(if_spec(m, args, env, depth).result),
    ensures
        if_spec(m, args, env, deeper) == if_spec(m, args, env, depth),
    decreases depth, 2nat, 0nat,
{
    if args.len() == 3 {
        let condition = eval_spec(m, args[0], env, depth);
        lemma_deeper_is_same(m, args[0], env, depth, deeper);
        if let Ok(ExprView::Bool(b)) = condition.result {
            lemma_deeper_is_same(
                m,
                if b {
                    args[1]
                } else {
                    args[2]
                },
                condition.env,
                depth,
                deeper,
            );
        }
    }
}

proof fn lemma_deeper_args(
    m: spec_fn(ArithOp, u64, u64) -> u64,
    args: Seq<ExprView>,
    env: Map<Seq<char>, ExprView>,
    depth: nat,
    deeper: nat,
)
    requires
        depth <= deeper,
        eval_args_spec(m, args, env, depth).result != Err::<Seq<ExprView>, EvalErrorView>(
            EvalErrorView::DepthExceeded,
        ),
    ensures
        eval_args_spec(m, args, env, deeper) == eval_args_spec(m, args, env, depth),
    decreases depth, 1nat, args.len(),
{
    if args.len() > 0 {
        let first = eval_spec(m, args[0], env, depth);
        lemma_deeper_is_same(m, args[0], env, depth, deeper);
        if first.result is Ok {
            lemma_deeper_args(m, args.drop_first(), first.env, depth, deeper);
        }
    }
}

proof fn lemma_deeper_apply(
    m: spec_fn(ArithOp, u64, u64) -> u64,
    op: ExprView,
    args: Seq<ExprView>,
    env: Map<Seq<char>, ExprView>,
    depth: nat,
    deeper: nat,
)
    requires
        depth <= deeper,
        !ran_out(apply_spec(m, op, args, env, depth).result),
    ensures
        apply_spec(m, op, args, env, deeper) == apply_spec(m, op, args, env, depth),
    decreases depth, 2nat, 0nat,
{
    let operands = eval_args_spec(m, args, env, depth);
    lemma_deeper_args(m, args, env, depth, deeper);
    if let Ok(values) = operands.result {
        if builtin_result(m, op, values) is None {
            let operator = eval_spec(m, op, operands.env, depth);
            lemma_deeper_is_same(m, op, operands.env, depth, deeper);
            if let Ok(ExprView::Func { params, body }) = operator.result {
                if params.len() == values.len() {
                    lemma_deeper_is_same(
                        m,
                        *body,
                        bind(operator.env, params, values),
                        depth,
                        deeper,
                    );
                }
            }
        }
    }
}

} // verus!
