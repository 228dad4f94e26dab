use minicalc::eval::{EvalCtx, EvalError};
use minicalc::lexer::LexError;
use minicalc::parser::{parse_top, ParseError};
use minicalc::session::SessionError;

fn eval(s: &str) -> Result<Option<u32>, String> {
    let e = parse_top(s).map_err(|e| format!("{:?}", e))?;
    EvalCtx::new().eval_stm(e).map_err(|e| format!("{:?}", e))
}

fn eval_in(s: &str, ctx: &mut EvalCtx) -> Result<Option<u32>, String> {
    let e = parse_top(s).map_err(|e| format!("{:?}", e))?;
    ctx.eval_stm(e).map_err(|e| format!("{:?}", e))
}

#[test]
fn test_ok_many() {
    let test_cases = [
        ("5", 5),
        ("1+1", 2),
        ("2*3", 6),
        ("1+1+1", 3),
        ("1*2*3*4", 24),
        ("2+2*2", 6),
        ("(2+2)*2", 8),
    ];

    for &(input, output) in test_cases.iter() {
        assert_eq!(Ok(Some(output)), eval(input));
    }
}

#[test]
fn test_assignments_many() {
    let test_cases = ["x = 123", "X = 1 + 1", "abc = 5"];

    for &input in test_cases.iter() {
        assert_eq!(Ok(None), eval(input));
    }
}

#[test]
fn test_failing_many() {
    let test_cases = [
        "",
        "4+",
        "+5",
        "*",
        "+",
        "1+1+",
        "(4",
        "4(",
        "4)",
        "()(",
        "()",
        "1 ++ 2",
        "1 + * 2",
        "1 + ( * 2",
    ];

    for &input in test_cases.iter() {
        assert!(eval(input).is_err());
    }
}

#[test]
fn test_literal_evaluates_to_itself() {
    for n in [0u32, 1, 9, 10, 42, 1000, 65_536, 4_294_967_295] {
        assert_eq!(eval(&format!("{}", n)), Ok(Some(n)));
    }
}

#[test]
fn test_right_associativity_values() {
    assert_eq!(eval("2+3+4"), Ok(Some(9)));
    assert_eq!(eval("2*3*4"), Ok(Some(24)));
}

#[test]
fn test_precedence_values() {
    assert_eq!(eval("2+3*4"), Ok(Some(14)));
    assert_eq!(eval("2*3+4"), Ok(Some(10)));
    assert_eq!(eval("(2+3)*4"), Ok(Some(20)));
}

#[test]
fn test_assignment_then_reference() {
    let mut ctx = EvalCtx::new();
    assert_eq!(eval_in("x = 7", &mut ctx), Ok(None));
    assert_eq!(eval_in("x+1", &mut ctx), Ok(Some(8)));
}

#[test]
fn test_unbound_variable_fails() {
    let mut ctx = EvalCtx::new();
    let stm = parse_top("y+1").unwrap();
    assert_eq!(
        ctx.eval_stm(stm),
        Err(EvalError::UnboundVariable(String::from("y")))
    );
}

#[test]
fn test_malformed_input_leaves_bindings_alone() {
    let mut ctx = EvalCtx::new();
    assert_eq!(eval_in("x = 5", &mut ctx), Ok(None));
    for input in ["", "+5", "4+", "()", "4(", "1 + * 2"] {
        assert!(eval_in(input, &mut ctx).is_err());
        assert_eq!(eval_in("x", &mut ctx), Ok(Some(5)));
    }
}

#[test]
fn test_errors_on_later_lines_keep_earlier_bindings() {
    let mut ctx = EvalCtx::new();
    assert_eq!(eval_in("a = 2", &mut ctx), Ok(None));
    assert!(eval_in("b = a + c", &mut ctx).is_err());
    assert!(eval_in("a = 3 - 1", &mut ctx).is_err());
    assert_eq!(eval_in("b = a * a", &mut ctx), Ok(None));
    assert_eq!(eval_in("a + b", &mut ctx), Ok(Some(6)));
}

#[test]
fn test_whitespace_gives_the_same_value() {
    assert_eq!(eval("1+1"), Ok(Some(2)));
    assert_eq!(eval("1 + 1"), Ok(Some(2)));
    assert_eq!(eval("1\n+\n1"), Ok(Some(2)));
}

#[test]
fn test_read_only_evaluation_twice() {
    let mut ctx = EvalCtx::new();
    assert_eq!(eval_in("x = 41", &mut ctx), Ok(None));
    let first = eval_in("x+1", &mut ctx);
    let second = eval_in("x+1", &mut ctx);
    assert_eq!(first, Ok(Some(42)));
    assert_eq!(first, second);
    assert_eq!(eval_in("x", &mut ctx), Ok(Some(41)));
}

#[test]
fn test_overflow_wraps_in_a_session() {
    let mut ctx = EvalCtx::new();
    assert_eq!(eval_in("big = 4294967295", &mut ctx), Ok(None));
    assert_eq!(eval_in("big + 1", &mut ctx), Ok(Some(0)));
    assert_eq!(eval_in("big * big", &mut ctx), Ok(Some(1)));
    assert_eq!(eval_in("4294967296 + 3", &mut ctx), Ok(Some(3)));
}

#[test]
fn test_error_kinds_through_the_pipeline() {
    assert_eq!(
        parse_top("2 & 3"),
        Err(ParseError::Lex(LexError::UnexpectedCharacter('&')))
    );
    assert_eq!(parse_top("2 +"), Err(ParseError::UnexpectedEndOfInput));
    let mut ctx = EvalCtx::new();
    assert_eq!(
        ctx.eval_stm(parse_top("x = x").unwrap()),
        Err(EvalError::UnboundVariable(String::from("x")))
    );
}

#[test]
fn test_line_reports_value() {
    let mut ctx = EvalCtx::new();
    assert_eq!(minicalc::session::eval("(2+2)*2", &mut ctx), Ok(Some(8)));
    assert_eq!(minicalc::session::eval("x = 3", &mut ctx), Ok(None));
    assert_eq!(minicalc::session::eval("x * x", &mut ctx), Ok(Some(9)));
}

#[test]
fn test_line_parse_error() {
    let mut ctx = EvalCtx::new();
    assert_eq!(
        minicalc::session::eval("2 +", &mut ctx),
        Err(SessionError::Parse(ParseError::UnexpectedEndOfInput))
    );
    assert_eq!(
        minicalc::session::eval("2 ~ 3", &mut ctx),
        Err(SessionError::Parse(ParseError::Lex(
            LexError::UnexpectedCharacter('~')
        )))
    );
}

#[test]
fn test_line_eval_error() {
    let mut ctx = EvalCtx::new();
    assert_eq!(
        minicalc::session::eval("y + 1", &mut ctx),
        Err(SessionError::Eval(EvalError::UnboundVariable(
            String::from("y")
        )))
    );
}

#[test]
fn test_failed_line_leaves_the_session_as_it_was() {
    let mut ctx = EvalCtx::new();
    assert_eq!(minicalc::session::eval("x = 5", &mut ctx), Ok(None));
    assert!(minicalc::session::eval("x = ", &mut ctx).is_err());
    assert!(minicalc::session::eval("x = y", &mut ctx).is_err());
    assert!(minicalc::session::eval("x = 6 6", &mut ctx).is_err());
    assert_eq!(minicalc::session::eval("x", &mut ctx), Ok(Some(5)));
}

#[test]
fn test_blanks_around_a_line() {
    let mut ctx = EvalCtx::new();
    assert_eq!(minicalc::session::eval("  ab=2 ", &mut ctx), Ok(None));
    assert_eq!(minicalc::session::eval("\nab\n*\n(ab + 1)\n", &mut ctx), Ok(Some(6)));
    assert_eq!(minicalc::session::eval("ab*(ab+1)", &mut ctx), Ok(Some(6)));
}

#[test]
fn test_blank_inside_a_run_splits_it() {
    let mut ctx = EvalCtx::new();
    assert_eq!(minicalc::session::eval("12", &mut ctx), Ok(Some(12)));
    assert!(minicalc::session::eval("1 2", &mut ctx).is_err());
    assert_eq!(minicalc::session::eval("ab = 1", &mut ctx), Ok(None));
    assert!(minicalc::session::eval("a b", &mut ctx).is_err());
}
