//! Tests of the state-machine evaluator.

use complex_calc::command::Command;
use complex_calc::complex::Complex;
use complex_calc::eval::EvalStep;
use complex_calc::eval::add_action;
use complex_calc::eval::add_number;
use complex_calc::eval::apply_unary_result;
use complex_calc::eval::clear;
use complex_calc::eval::consume_log;
use complex_calc::eval::eval_cmd;
use complex_calc::scalar::Scalar;
use complex_calc::state::AppState;
use complex_calc::state::BinOp;

fn c(re: i64, im: i64) -> Complex {
    Complex::new(Scalar::from_int(re), Scalar::from_int(im))
}

#[test]
fn test_help_command__065() {
    let ini_state = AppState::default();

    assert_eq!(
        Ok(EvalStep::Next(AppState::default())),
        eval_cmd(ini_state, Command::Help)
    );
}

#[test]
fn test_clear_command__066() {
    assert_eq!(
        Ok(EvalStep::Next(AppState::default())),
        eval_cmd(AppState::new(None, None, true), Command::Clear)
    );
}

#[test]
fn test_print_real__067__068() {
    {
        let ini_state = AppState::new(Some(c(1, 0)), None, true);
        let expected = Ok(EvalStep::Next(AppState::new(Some(c(1, 0)), None, false)));

        assert_eq!(expected, eval_cmd(ini_state, Command::Real));
    }
    {
        let ini_state = AppState::new(None, None, true);
        let expected = Err((
            AppState::new(None, None, true),
            "You must insert a number first".to_owned(),
        ));

        assert_eq!(expected, eval_cmd(ini_state, Command::Real));
    }
}

#[test]
fn test_print_imaginary__069__070() {
    {
        let ini_state = AppState::new(Some(c(1, 0)), None, true);
        let expected = Ok(EvalStep::Next(AppState::new(Some(c(1, 0)), None, false)));

        assert_eq!(expected, eval_cmd(ini_state, Command::Imaginary));
    }
    {
        let ini_state = AppState::new(None, None, true);
        let expected = Err((
            AppState::new(None, None, true),
            "You must insert a number first".to_owned(),
        ));

        assert_eq!(expected, eval_cmd(ini_state, Command::Imaginary));
    }
}

#[test]
fn test_add_action__071__072__073__074() {
    {
        let input_state = AppState::new(Some(c(1, 0)), None, true);
        let expected = Ok(EvalStep::Next(AppState::new(
            Some(c(1, 0)),
            Some(BinOp::Addition),
            true,
        )));

        let output = eval_cmd(input_state, Command::Addition);

        assert_eq!(expected, output);
    }
    {
        let input_state = AppState::new(None, None, true);
        let expected = Err((
            AppState::new(None, None, true),
            "You must insert a number first".to_owned(),
        ));

        let output = eval_cmd(input_state, Command::Addition);

        assert_eq!(expected, output);
    }
    {
        let input_state = AppState::new(None, None, true);
        let expected = Err((
            AppState::new(None, None, true),
            "You must insert a number first".to_owned(),
        ));

        let output = eval_cmd(input_state, Command::Subtraction);

        assert_eq!(expected, output);
    }
    {
        let input_state = AppState::new(None, None, true);
        let expected = Err((
            AppState::new(None, None, true),
            "You must insert a number first".to_owned(),
        ));

        let output = eval_cmd(input_state, Command::Multiplication);

        assert_eq!(expected, output);
    }
}

#[test]
fn test_number__075() {
    let input_num = c(1, 0);
    let input_state = AppState::new(None, None, false);
    let expected = Ok(EvalStep::Next(AppState::new(Some(c(1, 0)), None, true)));

    assert_eq!(expected, eval_cmd(input_state, Command::Number(input_num)));
}

#[test]
fn test_power__076() {
    let input_num = Scalar::from_int(2);
    let input_state = AppState::new(Some(c(2, 2)), None, false);
    let expected = Ok(EvalStep::NeedsPower(input_state, input_num));

    assert_eq!(expected, eval_cmd(input_state, Command::Power(input_num)));
}

#[test]
fn test_root__077() {
    let input_num = Scalar::from_int(2);
    let input_state = AppState::new(Some(c(2, 2)), None, false);
    let expected = Ok(EvalStep::NeedsRoot(input_state, input_num));

    assert_eq!(expected, eval_cmd(input_state, Command::Root(input_num)));
}

#[test]
fn test_exit__078() {
    let input_state = AppState::default();
    let expected = Ok(EvalStep::Next(AppState::default()));

    assert_eq!(expected, eval_cmd(input_state, Command::Exit));
}

#[test]
fn test_clear_command__030() {
    assert_eq!(Ok(AppState::default()), clear());
}

#[test]
fn test_add_action__035__036() {
    {
        let input_state = AppState::new(Some(c(1, 0)), None, true);
        let expected = Ok(AppState::new(Some(c(1, 0)), Some(BinOp::Addition), true));

        let output = add_action(input_state, BinOp::Addition);

        assert_eq!(expected, output);
    }
    {
        let input_state = AppState::new(None, None, true);
        let expected = Err((
            AppState::new(None, None, true),
            "You must insert a number first".to_owned(),
        ));

        let output = add_action(input_state, BinOp::Addition);

        assert_eq!(expected, output);
    }
}

#[test]
fn test_add_number_action__037__038__039__040__041__042() {
    {
        let input_num = c(1, 1);
        let input_state = AppState::new(None, Some(BinOp::Addition), false);
        let expected = Err((
            AppState::new(None, Some(BinOp::Addition), false),
            "You must insert a number first".to_owned(),
        ));

        assert_eq!(expected, add_number(input_num, input_state));
    }
    {
        let input_num = c(1, 1);
        let input_state = AppState::new(Some(c(0, 0)), Some(BinOp::Addition), false);
        let expected = Ok(AppState::new(Some(c(1, 1)), None, true));

        assert_eq!(expected, add_number(input_num, input_state));
    }
    {
        let input_num = c(1, 1);
        let input_state = AppState::new(Some(c(1, 1)), Some(BinOp::Subtraction), false);
        let expected = Ok(AppState::new(Some(c(0, 0)), None, true));

        assert_eq!(expected, add_number(input_num, input_state));
    }
    {
        let input_num = c(1, 1);
        let input_state = AppState::new(Some(c(1, 1)), Some(BinOp::Multiplication), false);
        // (1 + 1j)(1 + 1j) = (1 - 1) + (1 + 1)j = 0 + 2j.
        let expected = Ok(AppState::new(Some(c(0, 2)), None, true));

        assert_eq!(expected, add_number(input_num, input_state));
    }
    {
        let input_num = c(1, 0);
        let input_state = AppState::new(None, None, false);
        let expected = Ok(AppState::new(Some(c(1, 0)), None, true));

        assert_eq!(expected, add_number(input_num, input_state));
    }
}

#[test]
fn test_number_overwrites_without_pending_op() {
    let input_state = AppState::new(Some(c(5, 5)), None, true);
    let expected = Ok(EvalStep::Next(AppState::new(Some(c(2, 0)), None, true)));

    assert_eq!(expected, eval_cmd(input_state, Command::Number(c(2, 0))));
}

#[test]
fn test_multiplication_out_of_range() {
    let huge = Complex::new(Scalar::from_parts(false, u64::MAX, 0), Scalar::from_int(0));
    let input_state = AppState::new(Some(huge), Some(BinOp::Multiplication), false);
    let expected = Err((input_state, "Number out of range".to_owned()));

    assert_eq!(expected, eval_cmd(input_state, Command::Number(huge)));
}

#[test]
fn test_apply_unary_result_keeps_pending_op() {
    let state = AppState::new(Some(c(2, 2)), Some(BinOp::Addition), false);
    let result = c(0, 8);
    let expected = AppState::new(Some(c(0, 8)), Some(BinOp::Addition), true);

    assert_eq!(expected, apply_unary_result(state, result));
}

#[test]
fn test_consume_log_takes_number_once() {
    let state = AppState::new(Some(c(1, 1)), None, true);
    let (logged, next) = consume_log(state);
    assert_eq!(Some(c(1, 1)), logged);
    assert_eq!(AppState::new(Some(c(1, 1)), None, false), next);

    let (logged_again, same) = consume_log(next);
    assert_eq!(None, logged_again);
    assert_eq!(next, same);
}

#[test]
fn test_sequence_enter_add_enter() {
    // A full computation: enter 0+0j, ask for addition, enter 1+1j.
    let s0 = AppState::default();
    let s1 = match eval_cmd(s0, Command::Number(c(0, 0))) {
        Ok(EvalStep::Next(s)) => s,
        other => panic!("unexpected step: {:?}", other),
    };
    assert_eq!(AppState::new(Some(c(0, 0)), None, true), s1);

    let s2 = match eval_cmd(s1, Command::Addition) {
        Ok(EvalStep::Next(s)) => s,
        other => panic!("unexpected step: {:?}", other),
    };
    assert_eq!(AppState::new(Some(c(0, 0)), Some(BinOp::Addition), true), s2);

    let s3 = match eval_cmd(s2, Command::Number(c(1, 1))) {
        Ok(EvalStep::Next(s)) => s,
        other => panic!("unexpected step: {:?}", other),
    };
    assert_eq!(AppState::new(Some(c(1, 1)), None, true), s3);
    assert_eq!("1+1j".to_owned(), s3.number.unwrap().to_text());
}

#[test]
fn test_second_operator_overwrites_pending() {
    let s0 = AppState::new(Some(c(1, 0)), None, false);
    let s1 = match eval_cmd(s0, Command::Addition) {
        Ok(EvalStep::Next(s)) => s,
        other => panic!("unexpected step: {:?}", other),
    };
    let s2 = match eval_cmd(s1, Command::Subtraction) {
        Ok(EvalStep::Next(s)) => s,
        other => panic!("unexpected step: {:?}", other),
    };
    assert_eq!(Some(BinOp::Subtraction), s2.pending_op);
    assert_eq!(s0.number, s2.number);
    assert_eq!(s0.log, s2.log);
}

#[test]
fn test_power_without_number_fails() {
    let ini_state = AppState::new(None, None, false);
    let expected = Err((
        AppState::new(None, None, false),
        "You must insert a number first".to_owned(),
    ));
    assert_eq!(expected, eval_cmd(ini_state, Command::Power(Scalar::from_int(2))));
    let expected_root = Err((
        AppState::new(None, None, false),
        "You must insert a number first".to_owned(),
    ));
    assert_eq!(expected_root, eval_cmd(ini_state, Command::Root(Scalar::from_int(2))));
}
