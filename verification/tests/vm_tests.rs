use rustpn::builtin::insert_all;
use rustpn::item::{Stack, StackItem};
use rustpn::parse::parse;
use rustpn::vm::{Error, Vm};

fn run(src: &str) -> (Vm, Result<(), Error>) {
    let mut vm = Vm::new();
    insert_all(&mut vm);
    let block = parse(src).expect("program should parse");
    let r = vm.run_block(&block);
    (vm, r)
}

fn ints(values: &[i64]) -> Vec<StackItem> {
    values.iter().map(|v| StackItem::Integer(*v)).collect()
}

#[test]
fn test_add_two_numbers() {
    let (vm, r) = run("1 2 +");
    assert_eq!(r, Ok(()));
    assert_eq!(vm.stack.0, ints(&[3]));
}

#[test]
fn test_user_method_runs_twice() {
    let (vm, r) = run(":double {1 2 +} fn double double");
    assert_eq!(r, Ok(()));
    assert_eq!(vm.stack.0, ints(&[3, 3]));
}

#[test]
fn test_ifelse_true_branch() {
    let (vm, r) = run("true {1} {2} ifelse");
    assert_eq!(r, Ok(()));
    assert_eq!(vm.stack.0, ints(&[1]));
}

#[test]
fn test_ifelse_false_branch() {
    let (vm, r) = run("false {1} {2} ifelse");
    assert_eq!(r, Ok(()));
    assert_eq!(vm.stack.0, ints(&[2]));
}

#[test]
fn test_while_with_undefined_comparison() {
    let (_, r) = run("0 {dup 5 <} {dup 1 +} while");
    assert_eq!(r, Err(Error::UnknownMethod("<".to_string())));
}

#[test]
fn test_while_loops_five_times() {
    let (vm, r) = run("0 {dup 5 eq not} {1 +} while");
    assert_eq!(r, Ok(()));
    assert_eq!(vm.stack.0, ints(&[5]));
}

#[test]
fn test_divide_by_zero_consumes_operands() {
    let (vm, r) = run("1 0 /");
    assert_eq!(r, Err(Error::DivideByZero));
    assert!(vm.stack.0.is_empty());
}

#[test]
fn test_unknown_method_carries_name() {
    let (_, r) = run("no-such-method");
    assert_eq!(r, Err(Error::UnknownMethod("no-such-method".to_string())));
    let mut empty = Vm::new();
    let block = parse("true").unwrap();
    assert_eq!(
        empty.run_block(&block),
        Err(Error::UnknownMethod("true".to_string()))
    );
}

#[test]
fn test_pop_empty_stack_underflows() {
    let mut stack = Stack(Vec::new());
    assert_eq!(stack.pop(), Err(Error::StackUnderflow));
    assert!(stack.0.is_empty());
    let (_, r) = run("pop");
    assert_eq!(r, Err(Error::StackUnderflow));
}

#[test]
fn test_swap_twice_restores() {
    let (vm, r) = run("1 2 swap swap");
    assert_eq!(r, Ok(()));
    assert_eq!(vm.stack.0, ints(&[1, 2]));
}

#[test]
fn test_dup_then_pop_is_identity() {
    let (vm, r) = run("7 dup pop");
    assert_eq!(r, Ok(()));
    assert_eq!(vm.stack.0, ints(&[7]));
    let (vm2, r2) = run("7 clone pop");
    assert_eq!(r2, Ok(()));
    assert_eq!(vm2.stack.0, ints(&[7]));
}

#[test]
fn test_arithmetic_results() {
    let (vm, r) = run("9 4 - 3 * 5 /");
    assert_eq!(r, Ok(()));
    // (9 - 4) * 3 / 5 = 3
    assert_eq!(vm.stack.0, ints(&[3]));
}

#[test]
fn test_division_truncates_toward_zero() {
    let (vm, r) = run("0 7 - 2 /");
    assert_eq!(r, Ok(()));
    assert_eq!(vm.stack.0, ints(&[-3]));
}

#[test]
fn test_add_overflow() {
    let (_, r) = run("9223372036854775807 1 +");
    assert_eq!(r, Err(Error::IntegerOverflow));
}

#[test]
fn test_type_error_on_mixed_addition() {
    let (vm, r) = run("1 true +");
    assert_eq!(r, Err(Error::TypeError));
    assert!(vm.stack.0.is_empty());
}

#[test]
fn test_as_integer() {
    let (vm, r) = run("5 as-integer");
    assert_eq!(r, Ok(()));
    assert_eq!(vm.stack.0, ints(&[5]));
    let (_, r2) = run("true as-integer");
    assert_eq!(r2, Err(Error::TypeError));
}

#[test]
fn test_as_float_has_no_representation() {
    let (_, r) = run("5 as-float");
    assert_eq!(r, Err(Error::NumericConversion));
}

#[test]
fn test_to_string() {
    let (vm, r) = run("12 to-string");
    assert_eq!(r, Ok(()));
    assert_eq!(vm.stack.0, vec![StackItem::String("12".to_string())]);
    let (vm2, r2) = run("0 42 - to-string");
    assert_eq!(r2, Ok(()));
    assert_eq!(vm2.stack.0, vec![StackItem::String("-42".to_string())]);
}

#[test]
fn test_cat_concatenates() {
    let (vm, r) = run("\"foo\" \"bar\" cat");
    assert_eq!(r, Ok(()));
    assert_eq!(vm.stack.0, vec![StackItem::String("foobar".to_string())]);
}

#[test]
fn test_cat_type_error() {
    let (_, r) = run("\"foo\" 1 cat");
    assert_eq!(r, Err(Error::TypeError));
}

#[test]
fn test_stack_shuffles() {
    let (vm, r) = run("1 2 over");
    assert_eq!(r, Ok(()));
    assert_eq!(vm.stack.0, ints(&[1, 2, 1]));
    let (vm2, r2) = run("1 2 3 rot");
    assert_eq!(r2, Ok(()));
    assert_eq!(vm2.stack.0, ints(&[2, 3, 1]));
    let (vm3, r3) = run("1 2 3 clear");
    assert_eq!(r3, Ok(()));
    assert!(vm3.stack.0.is_empty());
}

#[test]
fn test_len_counts_stack() {
    let (vm, r) = run("7 8 len");
    assert_eq!(r, Ok(()));
    assert_eq!(vm.stack.0, ints(&[7, 8, 2]));
}

#[test]
fn test_clone_nth() {
    let (vm, r) = run("10 20 30 2 clone-nth");
    assert_eq!(r, Ok(()));
    assert_eq!(vm.stack.0, ints(&[10, 20, 30, 20]));
}

#[test]
fn test_clone_nth_out_of_bounds() {
    let (_, r) = run("10 5 clone-nth");
    assert_eq!(r, Err(Error::OutOfBounds));
    let (_, r2) = run("10 0 clone-nth");
    assert_eq!(r2, Err(Error::OutOfBounds));
}

#[test]
fn test_clone_nth_negative_count() {
    let (_, r) = run("10 0 1 - clone-nth");
    assert_eq!(r, Err(Error::IntegerOverflow));
}

#[test]
fn test_eq_is_structural() {
    let (vm, r) = run("{1 x} {1 x} eq {1} {2} eq");
    assert_eq!(r, Ok(()));
    assert_eq!(
        vm.stack.0,
        vec![StackItem::Boolean(true), StackItem::Boolean(false)]
    );
}

#[test]
fn test_boolean_ops() {
    let (vm, r) = run("true not false or");
    assert_eq!(r, Ok(()));
    assert_eq!(vm.stack.0, vec![StackItem::Boolean(false)]);
}

#[test]
fn test_if_runs_block_only_when_true() {
    let (vm, r) = run("true {1} if false {2} if");
    assert_eq!(r, Ok(()));
    assert_eq!(vm.stack.0, ints(&[1]));
}

#[test]
fn test_times_runs_block_count_times() {
    let (vm, r) = run("0 3 {1 +} times");
    assert_eq!(r, Ok(()));
    assert_eq!(vm.stack.0, ints(&[3]));
}

#[test]
fn test_times_nonpositive_runs_zero_times() {
    let (vm, r) = run("7 0 {1 +} times");
    assert_eq!(r, Ok(()));
    assert_eq!(vm.stack.0, ints(&[7]));
    let (vm2, r2) = run("7 0 3 - {1 +} times");
    assert_eq!(r2, Ok(()));
    assert_eq!(vm2.stack.0, ints(&[7]));
}

#[test]
fn test_fn_overwrites_builtin() {
    // Redefining `+` shadows the builtin irrevocably.
    let (vm, r) = run(":+ {} fn 1 2 +");
    assert_eq!(r, Ok(()));
    assert_eq!(vm.stack.0, ints(&[1, 2]));
}

#[test]
fn test_fn_type_error() {
    let (_, r) = run("1 {2} fn");
    assert_eq!(r, Err(Error::TypeError));
}

#[test]
fn test_step_limit_exhaustion() {
    let mut vm = Vm::new();
    insert_all(&mut vm);
    let block = parse("1 2 +").unwrap();
    assert_eq!(
        vm.run_block_with_limit(&block, 1),
        Err(Error::ResourceExhausted)
    );
    let mut vm2 = Vm::new();
    insert_all(&mut vm2);
    assert_eq!(vm2.run_block_with_limit(&block, 1000), Ok(()));
    assert_eq!(vm2.stack.0, ints(&[3]));
}

#[test]
fn test_new_with_builtins() {
    let mut vm = Vm::new_with_builtins();
    assert_eq!(vm.run_block(&parse("2 3 *").unwrap()), Ok(()));
    assert_eq!(vm.stack.0, ints(&[6]));
}

#[test]
fn test_run_single_item() {
    let mut vm = Vm::new();
    insert_all(&mut vm);
    let block = parse("41 1").unwrap();
    for item in &block.0 {
        assert_eq!(vm.run(item), Ok(()));
    }
    assert_eq!(vm.stack.0, ints(&[41, 1]));
}

#[test]
fn test_state_persists_across_runs() {
    let mut vm = Vm::new();
    insert_all(&mut vm);
    assert_eq!(vm.run_block(&parse(":twice {2 *} fn 5").unwrap()), Ok(()));
    assert_eq!(vm.run_block(&parse("twice twice").unwrap()), Ok(()));
    assert_eq!(vm.stack.0, ints(&[20]));
}

#[test]
fn test_failure_keeps_partial_state() {
    let (vm, r) = run("1 2 3 nope 4");
    assert_eq!(r, Err(Error::UnknownMethod("nope".to_string())));
    assert_eq!(vm.stack.0, ints(&[1, 2, 3]));
}

#[test]
fn test_stack_render() {
    let (vm, r) = run("1 \"a\" true :s {2 x}");
    assert_eq!(r, Ok(()));
    assert_eq!(vm.stack.render(), "1 \"a\" true :s { 2 x } ");
}

#[test]
fn test_symbol_value_renders_with_colon() {
    let (vm, _) = run(":name");
    assert_eq!(vm.stack.0[0].render(), ":name");
}
