//! The evaluator walks the tree: values, environments, scoping, errors
//! and the command fallback.

use fjord::ast::{BindingDef, BindingUsage, FunctionCall, If, Lambda};
use fjord::commands::Commands;
use fjord::env::Env;
use fjord::eval::{eval, Error, EvalError, EvalErrorKind, EvalStop};
use fjord::parser::expr::{parse_binding_usage, parse_expr, parse_if, parse_lambda};
use fjord::parser::statement::parse_statement;
use fjord::parser::Parser;
use fjord::syntax_kind::SyntaxKind;
use fjord::text_range::TextRange;
use fjord::tree::SyntaxElement;
use fjord::val::Val;

const FUEL: u64 = 10_000;

fn fresh_env() -> Env {
    Env::new(Commands::new())
}

fn no_outcomes() -> Vec<bool> {
    Vec::new()
}

fn parse_fragment(input: &str, f: fn(&mut Parser)) -> SyntaxElement {
    let mut p = Parser::new(input);
    p.start_node(SyntaxKind::Root);
    f(&mut p);
    assert_eq!(p.errors.len(), 0, "the fragment parses cleanly");
    let root = p.finish_and_get_syntax();
    match root {
        SyntaxElement::Node(n) => {
            for c in n.children {
                let k = c.kind();
                if k != SyntaxKind::Whitespace && k != SyntaxKind::Eol {
                    return c;
                }
            }
            panic!("the fragment holds an element")
        }
        _ => panic!("the root is a node"),
    }
}

fn expect_num(r: Result<Val, EvalStop>) -> i64 {
    match r {
        Ok(Val::Number(n)) => n,
        other => panic!("expected a number, got {:?}", other),
    }
}

fn expect_str(r: Result<Val, EvalStop>) -> String {
    match r {
        Ok(Val::Str(s)) => s,
        other => panic!("expected a string, got {:?}", other),
    }
}

fn expect_error(r: Result<Val, EvalStop>) -> EvalError {
    match r {
        Err(EvalStop::Error(e)) => e,
        other => panic!("expected an evaluation error, got {:?}", other),
    }
}

#[test]
fn evaluate_if_expr_with_true_condition() {
    let if_ = If::cast(parse_fragment("if true then { 1 } else { 0 }", parse_if)).unwrap();
    let mut env = fresh_env();
    assert_eq!(expect_num(if_.eval(&mut env, FUEL, &no_outcomes())), 1);
}

#[test]
fn evaluate_if_expr_with_false_condition() {
    let if_ = If::cast(parse_fragment(
        "if false then { \"Hello\" } else { \"Goodbye\" }",
        parse_if,
    ))
    .unwrap();
    let mut env = fresh_env();
    assert_eq!(expect_str(if_.eval(&mut env, FUEL, &no_outcomes())), "Goodbye");
}

#[test]
fn evaluate_if_expr_with_non_bool_condition() {
    let if_ = If::cast(parse_fragment(
        "if \"hello\" then { 10 - 1 } else { 100 / 2 }",
        parse_if,
    ))
    .unwrap();
    let mut env = fresh_env();
    assert_eq!(
        expect_error(if_.eval(&mut env, FUEL, &no_outcomes())),
        EvalError::new(EvalErrorKind::NonBoolCond, TextRange::new(3, 10)),
    );
}

#[test]
fn evaluate_non_existent_binding_usage() {
    let usage = BindingUsage::cast(parse_fragment("$test", parse_binding_usage)).unwrap();
    let env = fresh_env();
    match usage.eval(&env) {
        Err(e) => assert_eq!(
            e,
            EvalError::new(EvalErrorKind::BindingDoesNotExist, TextRange::new(0, 5)),
        ),
        other => panic!("expected a missing-binding error, got {:?}", other),
    }
}

#[test]
fn evaluate_binding_usage_that_does_exist() {
    let usage = BindingUsage::cast(parse_fragment("$foo-bar", parse_binding_usage)).unwrap();
    let mut env = fresh_env();
    env.store_binding(String::from("foo-bar"), Val::Number(5));
    match usage.eval(&env) {
        Ok(Val::Number(n)) => assert_eq!(n, 5),
        other => panic!("expected the stored number, got {:?}", other),
    }
}

#[test]
fn evaluate_lambda() {
    let id_lambda = parse_fragment("|x| $x", parse_lambda);
    let apply_a_to_b = Lambda::cast(parse_fragment("|a b| a $b", parse_lambda)).unwrap();
    let mut env = fresh_env();
    // applying the identity lambda to "hello" gives "hello"
    let r = apply_a_to_b.eval(
        TextRange::empty(),
        vec![Val::Lambda(id_lambda), Val::Str(String::from("hello"))],
        &mut env,
        FUEL,
        &no_outcomes(),
    );
    assert_eq!(expect_str(r), "hello");
}

#[test]
fn evaluate_lambda_with_too_many_params() {
    let id_lambda = Lambda::cast(parse_fragment("|a| $a", parse_lambda)).unwrap();
    let mut env = fresh_env();
    let call_range = TextRange::new(0, 10);
    let r = id_lambda.eval(
        call_range,
        vec![Val::Number(5), Val::Str(String::from("test"))],
        &mut env,
        FUEL,
        &no_outcomes(),
    );
    assert_eq!(
        expect_error(r),
        EvalError::new(EvalErrorKind::TooManyParams, call_range),
    );
}

#[test]
fn evaluate_lambda_with_too_few_params() {
    let ls_two_dirs = Lambda::cast(parse_fragment("|dir1 dir2| ls $dir1 $dir2", parse_lambda))
        .unwrap();
    let mut env = fresh_env();
    let call_range = TextRange::new(0, 10);
    let r = ls_two_dirs.eval(
        call_range,
        vec![Val::Str(String::from("~/Documents"))],
        &mut env,
        FUEL,
        &no_outcomes(),
    );
    assert_eq!(
        expect_error(r),
        EvalError::new(EvalErrorKind::TooFewParams, call_range),
    );
}

#[test]
fn evaluate_lambda_with_atom_param() {
    let mut env = fresh_env();
    let id_lambda = parse_fragment("|x| $x", parse_lambda);
    env.store_binding(String::from("id"), Val::Lambda(id_lambda));
    let call = FunctionCall::cast(parse_fragment("id this-is-an-atom", parse_expr)).unwrap();
    assert_eq!(
        expect_str(call.eval(&mut env, FUEL, &no_outcomes())),
        "this-is-an-atom",
    );
}

#[test]
fn call_lambda_with_several_params() {
    let mut env = fresh_env();
    let return_first = parse_fragment("|a b| $a", parse_lambda);
    env.store_binding(String::from("return-first"), Val::Lambda(return_first));
    let call = FunctionCall::cast(parse_fragment("return-first 5 10", parse_expr)).unwrap();
    assert_eq!(expect_num(call.eval(&mut env, FUEL, &no_outcomes())), 5);
}

#[test]
fn call_lambda_without_any_params() {
    let mut env = fresh_env();
    let always_100 = parse_fragment("|| 100", parse_lambda);
    env.store_binding(String::from("always-return-100"), Val::Lambda(always_100));
    let call = FunctionCall::cast(parse_fragment("always-return-100", parse_expr)).unwrap();
    assert_eq!(expect_num(call.eval(&mut env, FUEL, &no_outcomes())), 100);
}

#[test]
fn call_non_lambda() {
    let mut env = fresh_env();
    env.store_binding(String::from("foo"), Val::Number(100));
    let call = FunctionCall::cast(parse_fragment("foo 10", parse_expr)).unwrap();
    assert_eq!(
        expect_error(call.eval(&mut env, FUEL, &no_outcomes())),
        EvalError::new(
            EvalErrorKind::CallNonLambda { ty: fjord::val::Ty::Number },
            TextRange::new(0, 3),
        ),
    );
}

#[test]
fn call_non_existent_func_or_command() {
    let mut env = fresh_env();
    let call = FunctionCall::cast(parse_fragment("non-existent 1 2 3", parse_expr)).unwrap();
    assert_eq!(
        expect_error(call.eval(&mut env, FUEL, &no_outcomes())),
        EvalError::new(
            EvalErrorKind::FuncOrCommandDoesNotExist,
            TextRange::new(0, 12),
        ),
    );
}

#[test]
fn evaluate_binding_def() {
    let def = BindingDef::cast(parse_fragment("let a = 5", parse_statement)).unwrap();
    let mut env = fresh_env();
    def.eval(&mut env, FUEL, &no_outcomes()).unwrap();
    match env.get_binding("a") {
        Some(Val::Number(n)) => assert_eq!(n, 5),
        other => panic!("expected the stored number, got {:?}", other),
    }
    // the one root scope holds exactly this one binding
    assert_eq!(env.scopes.len(), 1);
    assert_eq!(env.scopes[0].len(), 1);
    assert_eq!(env.scopes[0][0].0, "a");
}

fn eval_whole(source: &str) -> Result<Val, Error> {
    let mut env = fresh_env();
    eval(source, &mut env, FUEL, &no_outcomes())
}

#[test]
fn evaluate_empty_root() {
    match eval_whole("") {
        Ok(Val::Nil) => {}
        other => panic!("expected nil, got {:?}", other),
    }
}

#[test]
fn evaluate_root_with_one_expr_returns_value_of_expr() {
    match eval_whole("\"hello\"") {
        Ok(Val::Str(s)) => assert_eq!(s, "hello"),
        other => panic!("expected a string, got {:?}", other),
    }
}

#[test]
fn evaluate_root_with_one_statement_returns_nil() {
    match eval_whole("let x = 1") {
        Ok(Val::Nil) => {}
        other => panic!("expected nil, got {:?}", other),
    }
}

#[test]
fn evaluate_root_with_multiple_expressions_returns_last() {
    match eval_whole("\n5\n10\n\"foobar\"\n2") {
        Ok(Val::Number(n)) => assert_eq!(n, 2),
        other => panic!("expected a number, got {:?}", other),
    }
}

#[test]
fn subtraction_associates_to_the_left() {
    match eval_whole("10 - 5 - 3 - 2") {
        Ok(Val::Number(n)) => assert_eq!(n, 0),
        other => panic!("expected a number, got {:?}", other),
    }
}

#[test]
fn multiplication_binds_tighter_than_addition() {
    match eval_whole("2 + 3 * 4") {
        Ok(Val::Number(n)) => assert_eq!(n, 14),
        other => panic!("expected a number, got {:?}", other),
    }
}

#[test]
fn division_by_zero_is_an_error() {
    match eval_whole("1 / 0") {
        Err(Error::Eval(e)) => {
            assert_eq!(e.kind, EvalErrorKind::DivisionByZero);
            assert_eq!(e.range, TextRange::new(0, 5));
        }
        other => panic!("expected a division error, got {:?}", other),
    }
}

#[test]
fn bin_op_on_non_numbers_is_an_error() {
    match eval_whole("1 + \"x\"") {
        Err(Error::Eval(e)) => {
            assert_eq!(
                e.kind,
                EvalErrorKind::BinOpOnNonNumbers {
                    lhs_ty: fjord::val::Ty::Number,
                    rhs_ty: fjord::val::Ty::Str,
                },
            );
        }
        other => panic!("expected a type error, got {:?}", other),
    }
}

#[test]
fn non_bool_condition_located_at_condition() {
    match eval_whole("if \"x\" then 1 else 2") {
        Err(Error::Eval(e)) => {
            assert_eq!(e, EvalError::new(EvalErrorKind::NonBoolCond, TextRange::new(3, 6)));
        }
        other => panic!("expected a condition error, got {:?}", other),
    }
}

#[test]
fn block_binding_is_not_visible_after_the_block() {
    match eval_whole("{\nlet x = 5\n}\n$x") {
        Err(Error::Eval(e)) => assert_eq!(e.kind, EvalErrorKind::BindingDoesNotExist),
        other => panic!("expected a missing-binding error, got {:?}", other),
    }
}

#[test]
fn lambda_parameter_is_not_visible_after_the_call() {
    let source = "let f = |a| $a\nf 1\n$a";
    match eval_whole(source) {
        Err(Error::Eval(e)) => assert_eq!(e.kind, EvalErrorKind::BindingDoesNotExist),
        other => panic!("expected a missing-binding error, got {:?}", other),
    }
}

#[test]
fn block_value_is_its_last_item() {
    match eval_whole("{\nlet a = 2\n$a * 3\n}") {
        Ok(Val::Number(n)) => assert_eq!(n, 6),
        other => panic!("expected a number, got {:?}", other),
    }
}

#[test]
fn parse_errors_stop_evaluation() {
    match eval_whole("let 5 = 10") {
        Err(Error::Parse(errs)) => assert_eq!(errs.len(), 1),
        other => panic!("expected a parse failure, got {:?}", other),
    }
}

#[test]
fn out_of_fuel_is_reported() {
    let mut env = fresh_env();
    match eval("1 + 1", &mut env, 0, &no_outcomes()) {
        Err(Error::OutOfFuel) => {}
        other => panic!("expected the fuel to run out, got {:?}", other),
    }
}

fn env_with_command() -> Env {
    let mut commands = Commands::new();
    commands.rescan(vec![(String::from("greet"), String::from("/bin/greet"))]);
    Env::new(commands)
}

#[test]
fn command_fallback_round_trip() {
    let mut env = env_with_command();
    // without an outcome, evaluation stops with the command to spawn
    match eval("greet hello 42", &mut env, FUEL, &no_outcomes()) {
        Err(Error::Pending(p)) => {
            assert_eq!(p.path, "/bin/greet");
            assert_eq!(p.args, vec![String::from("hello"), String::from("42")]);
        }
        other => panic!("expected a pending command, got {:?}", other),
    }
    // feeding the spawn outcome back yields nil
    let mut env = env_with_command();
    match eval("greet hello 42", &mut env, FUEL, &vec![true]) {
        Ok(Val::Nil) => {}
        other => panic!("expected nil, got {:?}", other),
    }
}

#[test]
fn failed_command_is_an_error_at_the_name() {
    let mut env = env_with_command();
    match eval("greet", &mut env, FUEL, &vec![false]) {
        Err(Error::Eval(e)) => {
            assert_eq!(e, EvalError::new(EvalErrorKind::FailedRunningCommand, TextRange::new(0, 5)));
        }
        other => panic!("expected a spawn failure, got {:?}", other),
    }
}

#[test]
fn undisplayable_command_arg_is_an_error_at_the_arg() {
    let mut env = env_with_command();
    match eval("greet true", &mut env, FUEL, &no_outcomes()) {
        Err(Error::Eval(e)) => {
            assert_eq!(
                e,
                EvalError::new(EvalErrorKind::UndisplayableCommandArg, TextRange::new(6, 10)),
            );
        }
        other => panic!("expected an argument error, got {:?}", other),
    }
}

#[test]
fn negative_numbers_render_for_commands() {
    let mut env = env_with_command();
    let source = "let n = 0 - 7\ngreet $n";
    match eval(source, &mut env, FUEL, &no_outcomes()) {
        Err(Error::Pending(p)) => assert_eq!(p.args, vec![String::from("-7")]),
        other => panic!("expected a pending command, got {:?}", other),
    }
}

#[test]
fn dynamic_scoping_resolves_at_the_call() {
    // a lambda does not capture its defining environment: the body sees
    // the caller's bindings
    let source = "let f = |x| $x + $y\nlet y = 10\nf 1";
    match eval_whole(source) {
        Ok(Val::Number(n)) => assert_eq!(n, 11),
        other => panic!("expected a number, got {:?}", other),
    }
}

#[test]
fn number_literals_wrap_at_sixty_four_bits() {
    // one past the largest signed value wraps around
    match eval_whole("9223372036854775808") {
        Ok(Val::Number(n)) => assert_eq!(n, -9223372036854775808),
        other => panic!("expected a number, got {:?}", other),
    }
    match eval_whole("9223372036854775807") {
        Ok(Val::Number(n)) => assert_eq!(n, 9223372036854775807),
        other => panic!("expected a number, got {:?}", other),
    }
}

#[test]
fn division_truncates_toward_zero() {
    match eval_whole("let a = 0 - 7\n$a / 2") {
        Ok(Val::Number(n)) => assert_eq!(n, -3),
        other => panic!("expected a number, got {:?}", other),
    }
    match eval_whole("7 / 2") {
        Ok(Val::Number(n)) => assert_eq!(n, 3),
        other => panic!("expected a number, got {:?}", other),
    }
}

#[test]
fn atoms_evaluate_to_their_own_text() {
    let mut env = fresh_env();
    env.store_binding(
        String::from("id"),
        Val::Lambda(parse_fragment("|x| $x", parse_lambda)),
    );
    match eval("id some-bare-word", &mut env, FUEL, &no_outcomes()) {
        Ok(Val::Str(s)) => assert_eq!(s, "some-bare-word"),
        other => panic!("expected a string, got {:?}", other),
    }
}
