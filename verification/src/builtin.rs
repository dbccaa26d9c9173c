//! The built-in operators: `+`, `-`, `*`, `/`, `>` and `concat`.
use crate::data::{Expr, ExprView, exprs_view};
use crate::error::{Builtin, EvalError, EvalErrorView};
use crate::number::{
    ArithOp, ONE, ZERO, accepts, computes, greater, greater_than, is_zero, is_zero_spec, negate,
    negated,
};
use crate::text::same_text;
use vstd::prelude::*;
use vstd::string::StringExecFns;

verus! {

/// The operator that `name` names, if it names one.
pub open spec fn builtin_named(name: Seq<char>) -> Option<Builtin> {
    if name == "+"@ {
        Some(Builtin::Arith(ArithOp::Add))
    } else if name == "-"@ {
        Some(Builtin::Arith(ArithOp::Sub))
    } else if name == "*"@ {
        Some(Builtin::Arith(ArithOp::Mul))
    } else if name == "/"@ {
        Some(Builtin::Arith(ArithOp::Div))
    } else if name == ">"@ {
        Some(Builtin::Greater)
    } else if name == "concat"@ {
        Some(Builtin::Concat)
    } else {
        None
    }
}

/// Whether every argument is a number.
pub open spec fn all_numbers(args: Seq<ExprView>) -> bool {
    forall|i: int| 0 <= i < args.len() ==> (#[trigger] args[i]) is Number
}

/// The bits of the arguments, which are numbers.
pub open spec fn numbers_of(args: Seq<ExprView>) -> Seq<u64> {
    Seq::new(args.len(), |i: int| args[i]->Number_0)
}

/// Whether every argument is a string.
pub open spec fn all_strings(args: Seq<ExprView>) -> bool {
    forall|i: int| 0 <= i < args.len() ==> (#[trigger] args[i]) is String
}

/// The characters of the arguments, which are strings, one after the other.
pub open spec fn concat_of(args: Seq<ExprView>) -> Seq<char>
    decreases args.len(),
{
    if args.len() == 0 {
        Seq::empty()
    } else {
        concat_of(args.drop_last()) + args.last()->String_0
    }
}

/// Whether an argument after the first is a number equal to zero.
pub open spec fn has_zero_divisor(args: Seq<ExprView>) -> bool {
    exists|i: int| 1 <= i < args.len() && zero_at(args, i)
}

/// Whether argument `i` is a number equal to zero.
pub open spec fn zero_at(args: Seq<ExprView>, i: int) -> bool {
    args[i] is Number && is_zero_spec(args[i]->Number_0)
}

/// `xs` folded into `acc` from left to right with the operation `op`, as `m`
/// computes it.
pub open spec fn fold(
    m: spec_fn(ArithOp, u64, u64) -> u64,
    op: ArithOp,
    acc: u64,
    xs: Seq<u64>,
) -> u64
    decreases xs.len(),
{
    if xs.len() == 0 {
        acc
    } else {
        fold(m, op, m(op, acc, xs[0]), xs.drop_first())
    }
}

/// What the operator `op` gives for the evaluated arguments `args`.
///
/// `+` and `*` fold the arguments into 0 and 1. `-` negates one argument and
/// subtracts the others from the first when there are more. `/` divides the
/// first by the others in turn, and fails before dividing when one of the
/// others is zero, whatever the kind of the remaining arguments. `>` compares
/// exactly two numbers. `concat` joins strings.
pub open spec fn apply_builtin_spec(
    m: spec_fn(ArithOp, u64, u64) -> u64,
    op: Builtin,
    args: Seq<ExprView>,
) -> Result<ExprView, EvalErrorView> {
    match op {
        Builtin::Arith(ArithOp::Add) => if !all_numbers(args) {
            Err(EvalErrorView::NumberExpected(op))
        } else {
            Ok(ExprView::Number(fold(m, ArithOp::Add, ZERO, numbers_of(args))))
        },
        Builtin::Arith(ArithOp::Mul) => if !all_numbers(args) {
            Err(EvalErrorView::NumberExpected(op))
        } else {
            Ok(ExprView::Number(fold(m, ArithOp::Mul, ONE, numbers_of(args))))
        },
        Builtin::Arith(ArithOp::Sub) => if !all_numbers(args) {
            Err(EvalErrorView::NumberExpected(op))
        } else if args.len() == 0 {
            Err(EvalErrorView::MissingOperand(ArithOp::Sub))
        } else if args.len() == 1 {
            Ok(ExprView::Number(negated(numbers_of(args)[0])))
        } else {
            Ok(
                ExprView::Number(
                    fold(m, ArithOp::Sub, numbers_of(args)[0], numbers_of(args).drop_first()),
                ),
            )
        },
        Builtin::Arith(ArithOp::Div) => if has_zero_divisor(args) {
            Err(EvalErrorView::DivisionByZero)
        } else if !all_numbers(args) {
            Err(EvalErrorView::NumberExpected(op))
        } else if args.len() == 0 {
            Err(EvalErrorView::MissingOperand(ArithOp::Div))
        } else {
            Ok(
                ExprView::Number(
                    fold(m, ArithOp::Div, numbers_of(args)[0], numbers_of(args).drop_first()),
                ),
            )
        },
        Builtin::Greater => if args.len() != 2 {
            Err(EvalErrorView::InvalidComparison)
        } else if args[0] is Number && args[1] is Number {
            Ok(ExprView::Bool(greater(args[0]->Number_0, args[1]->Number_0)))
        } else {
            Err(EvalErrorView::NumberExpected(op))
        },
        Builtin::Concat => if !all_strings(args) {
            Err(EvalErrorView::StringExpected)
        } else {
            Ok(ExprView::String(concat_of(args)))
        },
    }
}

/// What an application of the name `name` as an operator gives: nothing when
/// it names no operator.
pub open spec fn apply_named_spec(
    m: spec_fn(ArithOp, u64, u64) -> u64,
    name: Seq<char>,
    args: Seq<ExprView>,
) -> Option<Result<ExprView, EvalErrorView>> {
    match builtin_named(name) {
        Some(op) => Some(apply_builtin_spec(m, op, args)),
        None => None,
    }
}

/// What a result of evaluation stands for.
pub open spec fn result_view(r: Result<Expr, EvalError>) -> Result<ExprView, EvalErrorView> {
    match r {
        Ok(e) => Ok(e@),
        Err(e) => Err(e@),
    }
}

/// What the result of an operator's application stands for.
pub open spec fn applied_view(r: Option<Result<Expr, EvalError>>) -> Option<
    Result<ExprView, EvalErrorView>,
> {
    match r {
        Some(r) => Some(result_view(r)),
        None => None,
    }
}

/// The operator that `name` names, if it names one.
pub fn lookup_builtin(name: &str) -> (r: Option<Builtin>)
    ensures
        r == builtin_named(name@),
{
    if same_text(name, "+") {
        Some(Builtin::Arith(ArithOp::Add))
    } else if same_text(name, "-") {
        Some(Builtin::Arith(ArithOp::Sub))
    } else if same_text(name, "*") {
        Some(Builtin::Arith(ArithOp::Mul))
    } else if same_text(name, "/") {
        Some(Builtin::Arith(ArithOp::Div))
    } else if same_text(name, ">") {
        Some(Builtin::Greater)
    } else if same_text(name, "concat") {
        Some(Builtin::Concat)
    } else {
        None
    }
}

/// The bits of the arguments when all are numbers.
pub fn numbers(args: &[Expr]) -> (r: Option<Vec<u64>>)
    ensures
        r is Some == all_numbers(exprs_view(args@)),
        r matches Some(nums) ==> nums@ == numbers_of(exprs_view(args@)),
{
    let ghost views = exprs_view(args@);
    let mut nums: Vec<u64> = Vec::new();
    let mut i: usize = 0;
    while i < args.len()
        invariant
            i <= args.len(),
            views == exprs_view(args@),
            nums.len() == i,
            forall|j: int|
                0 <= j < i ==> (#[trigger] views[j]) is Number && nums@[j]
                    == views[j]->Number_0,
        decreases args.len() - i,
    {
        match &args[i] {
            Expr::Number(bits) => {
                nums.push(*bits);
            },
            _ => {
                proof {
                    assert(!(views[i as int] is Number));
                }
                return None;
            },
        }
        i += 1;
    }
    proof {
        assert(nums@ =~= numbers_of(views));
    }
    Some(nums)
}

/// Folds `nums[from..]` into `acc` with `op`.
pub fn fold_numbers<A: Fn(ArithOp, u64, u64) -> u64>(
    arith: &A,
    op: ArithOp,
    acc: u64,
    nums: &Vec<u64>,
    from: usize,
) -> (r: u64)
    requires
        from <= nums.len(),
        accepts(arith),
        op == ArithOp::Div ==> forall|j: int|
            from <= j < nums.len() ==> !is_zero_spec(nums@[j]),
    ensures
        forall|m: spec_fn(ArithOp, u64, u64) -> u64|
            computes(arith, m) ==> r == #[trigger] fold(m, op, acc, nums@.skip(from as int)),
{
    let mut value = acc;
    let mut i: usize = from;
    while i < nums.len()
        invariant
            from <= i <= nums.len(),
            accepts(arith),
            op == ArithOp::Div ==> forall|j: int|
                from <= j < nums.len() ==> !is_zero_spec(nums@[j]),
            forall|m: spec_fn(ArithOp, u64, u64) -> u64|
                computes(arith, m) ==> fold(m, op, value, nums@.skip(i as int)) == #[trigger] fold(
                    m,
                    op,
                    acc,
                    nums@.skip(from as int),
                ),
        decreases nums.len() - i,
    {
        let ghost before = value;
        value = arith(op, value, nums[i]);
        proof {
            assert forall|m: spec_fn(ArithOp, u64, u64) -> u64| computes(arith, m) implies fold(
                m,
                op,
                value,
                nums@.skip(i + 1),
            ) == #[trigger] fold(m, op, acc, nums@.skip(from as int)) by {
                let rest = nums@.skip(i as int);
                assert(rest[0] == nums@[i as int]);
                assert(rest.drop_first() =~= nums@.skip(i + 1));
                assert(fold(m, op, before, rest) == fold(m, op, value, rest.drop_first()));
            }
        }
        i += 1;
    }
    proof {
        assert(nums@.skip(nums.len() as int) =~= Seq::<u64>::empty());
    }
    value
}

/// Whether an argument after the first is a number equal to zero.
pub fn any_zero_divisor(args: &[Expr]) -> (r: bool)
    ensures
        r == has_zero_divisor(exprs_view(args@)),
{
    let ghost views = exprs_view(args@);
    let mut i: usize = 1;
    while i < args.len()
        invariant
            1 <= i,
            views == exprs_view(args@),
            forall|j: int| 1 <= j < i && j < args.len() ==> !zero_at(views, j),
        decreases args.len() - i,
    {
        match &args[i] {
            Expr::Number(bits) => {
                if is_zero(*bits) {
                    proof {
                        assert(zero_at(views, i as int));
                    }
                    return true;
                }
            },
            _ => {},
        }
        i += 1;
    }
    false
}

/// The strings among the arguments joined, when all are strings.
pub fn concat_strings(args: &[Expr]) -> (r: Option<String>)
    ensures
        r is Some == all_strings(exprs_view(args@)),
        r matches Some(s) ==> s@ == concat_of(exprs_view(args@)),
{
    let ghost views = exprs_view(args@);
    let mut out = String::new();
    let mut i: usize = 0;
    proof {
        assert(views.take(0) =~= Seq::<ExprView>::empty());
    }
    while i < args.len()
        invariant
            i <= args.len(),
            views == exprs_view(args@),
            forall|j: int| 0 <= j < i ==> (#[trigger] views[j]) is String,
            out@ == concat_of(views.take(i as int)),
        decreases args.len() - i,
    {
        match &args[i] {
            Expr::String(s) => {
                proof {
                    let upto = views.take(i + 1);
                    assert(upto.drop_last() =~= views.take(i as int));
                    assert(upto.last() == views[i as int]);
                }
                out.append(s.as_str());
            },
            _ => {
                proof {
                    assert(!(views[i as int] is String));
                }
                return None;
            },
        }
        i += 1;
    }
    proof {
        assert(views.take(args.len() as int) =~= views);
    }
    Some(out)
}

/// Whether the application of the name `name` to `args` gets as far as the
/// arithmetic: it names an arithmetic operator, every argument is a number,
/// and no divisor is zero.
pub open spec fn reaches_arithmetic(name: Seq<char>, args: Seq<ExprView>) -> bool {
    match builtin_named(name) {
        Some(Builtin::Arith(op)) => all_numbers(args) && !(op == ArithOp::Div && has_zero_divisor(
            args,
        )),
        _ => false,
    }
}

/// Applies the operator named `op` to the evaluated arguments `args`; gives
/// nothing when `op` names no operator. `arith` adds, subtracts, multiplies
/// and divides. It is asked nothing unless the arguments are in order: an
/// application that fails has computed nothing, and no division is made when
/// a divisor is zero.
pub fn apply_builtin_op<A: Fn(ArithOp, u64, u64) -> u64>(op: &str, args: &[Expr], arith: &A) -> (r:
    Option<Result<Expr, EvalError>>)
    requires
        reaches_arithmetic(op@, exprs_view(args@)) ==> accepts(arith),
    ensures
        r is Some == builtin_named(op@) is Some,
        forall|m: spec_fn(ArithOp, u64, u64) -> u64|
            computes(arith, m) ==> applied_view(r) == #[trigger] apply_named_spec(
                m,
                op@,
                exprs_view(args@),
            ),
{
    let ghost views = exprs_view(args@);
    let builtin = match lookup_builtin(op) {
        Some(b) => b,
        None => {
            return None;
        },
    };
    let r = match builtin {
        Builtin::Arith(ArithOp::Add) => match numbers(args) {
            None => Err(EvalError::NumberExpected(builtin)),
            Some(nums) => {
                proof {
                    assert(nums@.skip(0) =~= nums@);
                }
                Ok(Expr::Number(fold_numbers(arith, ArithOp::Add, ZERO, &nums, 0)))
            },
        },
        Builtin::Arith(ArithOp::Mul) => match numbers(args) {
            None => Err(EvalError::NumberExpected(builtin)),
            Some(nums) => {
                proof {
                    assert(nums@.skip(0) =~= nums@);
                }
                Ok(Expr::Number(fold_numbers(arith, ArithOp::Mul, ONE, &nums, 0)))
            },
        },
        Builtin::Arith(ArithOp::Sub) => match numbers(args) {
            None => Err(EvalError::NumberExpected(builtin)),
            Some(nums) => {
                if nums.len() == 0 {
                    Err(EvalError::MissingOperand(ArithOp::Sub))
                } else if nums.len() == 1 {
                    Ok(Expr::Number(negate(nums[0])))
                } else {
                    proof {
                        assert(nums@.skip(1) =~= nums@.drop_first());
                    }
                    Ok(Expr::Number(fold_numbers(arith, ArithOp::Sub, nums[0], &nums, 1)))
                }
            },
        },
        Builtin::Arith(ArithOp::Div) => {
            if any_zero_divisor(args) {
                Err(EvalError::DivisionByZero)
            } else {
                match numbers(args) {
                    None => Err(EvalError::NumberExpected(builtin)),
                    Some(nums) => {
                        if nums.len() == 0 {
                            Err(EvalError::MissingOperand(ArithOp::Div))
                        } else {
                            proof {
                                assert(nums@.skip(1) =~= nums@.drop_first());
                                assert forall|i: int| 1 <= i < nums.len() implies !is_zero_spec(
                                    nums@[i],
                                ) by {
                                    assert(!zero_at(views, i));
                                }
                            }
                            Ok(Expr::Number(fold_numbers(arith, ArithOp::Div, nums[0], &nums, 1)))
                        }
                    },
                }
            }
        },
        Builtin::Greater => {
            if args.len() != 2 {
                Err(EvalError::InvalidComparison)
            } else {
                match (&args[0], &args[1]) {
                    (Expr::Number(a), Expr::Number(b)) => Ok(Expr::Bool(greater_than(*a, *b))),
                    _ => Err(EvalError::NumberExpected(builtin)),
                }
            }
        },
        Builtin::Concat => match concat_strings(args) {
            None => Err(EvalError::StringExpected),
            Some(s) => Ok(Expr::String(s)),
        },
    };
    Some(r)
}

} // verus!
