use constgen::error::EvalError;
use constgen::eval::evaluate;
use constgen::functions::Functions;
use constgen::value::{Context, EvalErrorMessage, FloatArith, Primitive};

struct F64;

impl FloatArith for F64 {
    fn parse_decimal(&self, literal: &str) -> u64 {
        literal.parse::<f64>().unwrap().to_bits()
    }

    fn from_integer(&self, i: i128) -> u64 {
        (i as f64).to_bits()
    }

    fn sum(&self, a: u64, b: u64) -> u64 {
        (f64::from_bits(a) + f64::from_bits(b)).to_bits()
    }

    fn product(&self, a: u64, b: u64) -> u64 {
        (f64::from_bits(a) * f64::from_bits(b)).to_bits()
    }

    fn fract(&self, a: u64) -> u64 {
        f64::from_bits(a).fract().to_bits()
    }

    fn to_text(&self, a: u64) -> String {
        f64::from_bits(a).to_string()
    }

    fn float_eq(&self, a: u64, b: u64) -> bool {
        f64::from_bits(a) == f64::from_bits(b)
    }

    fn equals_integer(&self, a: u64, i: i128) -> bool {
        let f = f64::from_bits(a);
        // 2^127 is the first double past i128::MAX; `as` would saturate onto it.
        f.trunc() == f && i128::MIN as f64 <= f && f < -(i128::MIN as f64) && (f as i128) == i
    }
}

fn eval(text: &str) -> Result<Primitive, EvalError> {
    evaluate(text, &Context::new(), &Functions::default(), &F64)
}

fn eval_in(text: &str, ctx: &Context) -> Result<Primitive, EvalError> {
    evaluate(text, ctx, &Functions::default(), &F64)
}

fn float(f: f64) -> Primitive {
    Primitive::Float(f.to_bits())
}

/// Equality, but floats within `epsilon` of each other count as equal.
fn approx_eq(a: &Primitive, b: &Primitive, epsilon: f64) -> bool {
    match (a, b) {
        (Primitive::Float(x), Primitive::Float(y)) => {
            (f64::from_bits(*x) - f64::from_bits(*y)).abs() < epsilon
        },
        _ => a == b,
    }
}

fn kind(r: Result<Primitive, EvalError>) -> EvalErrorMessage {
    r.unwrap_err().message
}

fn span(r: Result<Primitive, EvalError>) -> (usize, usize) {
    let e = r.unwrap_err();
    (e.location.start, e.location.len)
}

#[test]
fn test_eval_int() {
    for v in -10..=10 {
        assert_eq!(eval(&v.to_string()), Ok(Primitive::Integer(v)));
    }

    assert_eq!(eval("-0"), Ok(Primitive::Integer(0)));
    assert_eq!(eval("+1"), Ok(Primitive::Integer(1)));
}

#[test]
fn test_eval_hex_int() {
    assert_eq!(eval("0x1"), Ok(Primitive::Integer(1)));
    assert_eq!(eval("0xf00"), Ok(Primitive::Integer(0xf00)));
    assert_eq!(eval("0xffff_8000_0000_0000"), Ok(Primitive::Integer(0xffff_8000_0000_0000)));
}

#[test]
fn test_eval_float() {
    for v in -100..=100 {
        let f = f64::from(v);
        assert!(approx_eq(&eval(&format!("{:.4}", f)).unwrap(), &float(f), 0.01));

        for q in 1..=100 {
            let f = f64::from(v) / f64::from(q);
            assert!(approx_eq(&eval(&format!("{:.4}", f)).unwrap(), &float(f), 0.01));
        }
    }
}

#[test]
fn test_eval_add() {
    assert_eq!(eval("(add 1 2)"), Ok(Primitive::Integer(3)));

    assert_eq!(eval("(add 1 2 3)"), Ok(Primitive::Integer(6)));

    assert_eq!(eval("(add (add 1 2) (add 3 4))"), Ok(Primitive::Integer(10)));

    assert!(approx_eq(&eval("(add 1.2 3.4)").unwrap(), &float(4.6), 0.01));
}

#[test]
fn radix_literals_match_their_decimal_values() {
    assert_eq!(eval("0b1010_0101"), Ok(Primitive::Integer(0xa5)));
    assert_eq!(eval("0o7_7"), Ok(Primitive::Integer(63)));
    assert_eq!(eval("0xdead_beef"), Ok(Primitive::Integer(3735928559)));
    assert_eq!(eval("1_000_000"), Ok(Primitive::Integer(1000000)));
}

#[test]
fn integer_literal_out_of_range_overflows() {
    assert_eq!(
        eval("170141183460469231731687303715884105727"),
        Ok(Primitive::Integer(i128::MAX))
    );
    assert_eq!(
        eval("-170141183460469231731687303715884105728"),
        Ok(Primitive::Integer(i128::MIN))
    );
    let r = eval("170141183460469231731687303715884105728");
    assert_eq!(span(r.clone()), (0, 39));
    assert_eq!(kind(r), EvalErrorMessage::Overflow);
}

#[test]
fn integer_arithmetic_overflow_is_reported() {
    let r = eval("(add 170141183460469231731687303715884105727 1)");
    assert_eq!(kind(r), EvalErrorMessage::Overflow);
    let r = eval("(mul 0x1_0000_0000_0000_0000 0x1_0000_0000_0000_0000)");
    assert_eq!(kind(r), EvalErrorMessage::Overflow);
    let r = eval("(add -170141183460469231731687303715884105728 -1)");
    assert_eq!(kind(r), EvalErrorMessage::Overflow);
}

#[test]
fn multiplication_and_mixed_kinds() {
    assert_eq!(eval("(mul 6 7)"), Ok(Primitive::Integer(42)));
    assert_eq!(eval("(mul 2.5 4.0)"), Ok(float(10.0)));
    assert_eq!(eval("(mul 3 0.5)"), Ok(float(1.5)));
    assert_eq!(eval("(add 1 0.5)"), Ok(float(1.5)));
    assert_eq!(eval("(add 1.5e1 1)"), Ok(float(16.0)));
}

#[test]
fn fract_of_floats_only() {
    assert_eq!(eval("(fract 3.0)"), Ok(float(0.0)));
    assert_eq!(eval("(fract 1.25)"), Ok(float(0.25)));
    assert!(matches!(kind(eval("(fract 1)")), EvalErrorMessage::InvalidArgument(_)));
    assert_eq!(kind(eval("(fract 1.0 2.0)")), EvalErrorMessage::ArgumentCount);
}

#[test]
fn bracket_errors() {
    assert_eq!(kind(eval("(")), EvalErrorMessage::UnmatchedOpen);
    assert_eq!(span(eval("(")), (0, 1));
    assert_eq!(kind(eval(")")), EvalErrorMessage::UnmatchedClose);
    assert_eq!(span(eval(")")), (0, 1));
    assert_eq!(kind(eval("()")), EvalErrorMessage::EmptyExpression);
    assert_eq!(span(eval("()")), (1, 1));
    assert_eq!(kind(eval("(1 2)")), EvalErrorMessage::CallNonSymbol);
    assert_eq!(span(eval("(1 2)")), (1, 1));
    assert_eq!(kind(eval("")), EvalErrorMessage::EmptyExpression);
    assert_eq!(kind(eval("(add 1 2) 3")), EvalErrorMessage::UnexpectedToken);
    assert_eq!(span(eval("(add 1 2) 3")), (10, 1));
    assert_eq!(kind(eval("(add 1 2")), EvalErrorMessage::UnexpectedToken);
    assert_eq!(span(eval("(add 1 2")), (0, 1));
    assert_eq!(kind(eval("1 2")), EvalErrorMessage::UnexpectedToken);
    assert_eq!(span(eval("1 2")), (2, 1));
}

#[test]
fn invalid_character() {
    assert_eq!(kind(eval("(add 1 #)")), EvalErrorMessage::InvalidChar('#'));
    assert_eq!(span(eval("(add 1 #)")), (7, 1));
}

#[test]
fn unknown_names() {
    let r = eval("unknownname");
    assert_eq!(span(r.clone()), (0, 11));
    assert_eq!(kind(r), EvalErrorMessage::UnknownSymbol("unknownname".to_owned()));
    let r = eval("(nosuchfn 1)");
    assert_eq!(span(r.clone()), (1, 8));
    assert_eq!(kind(r), EvalErrorMessage::UnknownFunction("nosuchfn".to_owned()));
}

#[test]
fn symbols_come_from_the_context() {
    let mut ctx = Context::new();
    ctx.insert("width".to_owned(), Primitive::Integer(4));
    ctx.insert("on".to_owned(), Primitive::Boolean(true));
    assert!(ctx.contains_key(&"width".to_owned()));
    assert_eq!(eval_in("(mul width (add width 1))", &ctx), Ok(Primitive::Integer(20)));
    assert_eq!(eval_in("(not on)", &ctx), Ok(Primitive::Boolean(false)));
    ctx.insert("width".to_owned(), Primitive::Integer(5));
    assert_eq!(eval_in("width", &ctx), Ok(Primitive::Integer(5)));
}

#[test]
fn unknown_symbol_comes_before_unknown_function() {
    let r = eval("(nosuchfn missing)");
    assert_eq!(kind(r), EvalErrorMessage::UnknownSymbol("missing".to_owned()));
}

#[test]
fn boolean_functions() {
    assert_eq!(eval("(not true)"), Ok(Primitive::Boolean(false)));
    assert_eq!(eval("(and true false)"), Ok(Primitive::Boolean(false)));
    assert_eq!(eval("(and true true true)"), Ok(Primitive::Boolean(true)));
    assert_eq!(eval("(or false true)"), Ok(Primitive::Boolean(true)));
    assert_eq!(kind(eval("(or)")), EvalErrorMessage::ArgumentCount);
    assert_eq!(kind(eval("(not)")), EvalErrorMessage::ArgumentCount);
    assert_eq!(kind(eval("(add 1)")), EvalErrorMessage::ArgumentCount);
    let r = eval("(and true 1)");
    assert_eq!(span(r.clone()), (10, 1));
    assert!(matches!(kind(r), EvalErrorMessage::InvalidArgument(_)));
    assert!(matches!(kind(eval("(add 1 true)")), EvalErrorMessage::InvalidArgument(_)));
    assert!(matches!(kind(eval("(not 1)")), EvalErrorMessage::InvalidArgument(_)));
}

#[test]
fn diagnostic_underlines_the_span() {
    let e = eval("(add 1 nope)").unwrap_err();
    assert_eq!(
        e.to_string(),
        "Unknown symbol name \"nope\"\n  (add 1 nope)\n         ^^^^"
    );
    assert_eq!(e.location.to_string(), "  (add 1 nope)\n         ^^^^");
}

#[test]
fn function_table_registration() {
    let mut fns = Functions::new();
    assert_eq!(fns.get("add"), None);
    fns.insert("plus", constgen::functions::Builtin::Add);
    assert_eq!(fns.get("plus"), Some(constgen::functions::Builtin::Add));
    let r = evaluate("(plus 2 3)", &Context::new(), &fns, &F64);
    assert_eq!(r, Ok(Primitive::Integer(5)));
}

#[test]
fn integers_equal_the_floats_they_represent() {
    let three = Primitive::Integer(3);
    assert!(three.equals(&float(3.0), &F64));
    assert!(float(3.0).equals(&three, &F64));
    assert!(!three.equals(&float(3.5), &F64));
    assert!(!three.equals(&Primitive::Boolean(true), &F64));
    assert!(Primitive::Boolean(false).equals(&Primitive::Boolean(false), &F64));
    assert!(float(0.0).equals(&float(-0.0), &F64));
    assert!(eval("(add 1 2.0)").unwrap().equals(&three, &F64));
}

#[test]
fn scanner_takes_the_longest_lexeme_in_priority_order() {
    assert_eq!(kind(eval("(and trueish)")), EvalErrorMessage::UnknownSymbol("ish".to_owned()));
    assert_eq!(eval("(add 0b102 0)"), Ok(Primitive::Integer(4)));
    assert_eq!(eval("(add\u{a0}1\t2)"), Ok(Primitive::Integer(3)));
    assert_eq!(eval("  7  "), Ok(Primitive::Integer(7)));
    assert_eq!(kind(eval("1.")), EvalErrorMessage::InvalidChar('.'));
}

#[test]
fn float_constants_pass_through_unchanged() {
    let mut ctx = Context::new();
    let odd = Primitive::Float(0x7ff8_0000_0000_0001);
    ctx.insert("odd".to_owned(), odd);
    ctx.insert("third".to_owned(), float(1.0 / 3.0));
    assert_eq!(eval_in("odd", &ctx), Ok(odd));
    assert_eq!(eval_in("third", &ctx), Ok(float(1.0 / 3.0)));
    assert_eq!(eval("2.5e-3"), Ok(float(2.5e-3)));
}

#[test]
fn operand_errors_point_at_the_first_failing_argument() {
    let r = eval("(add 1 2 true 4)");
    assert_eq!(span(r.clone()), (9, 4));
    assert!(matches!(kind(r), EvalErrorMessage::InvalidArgument(_)));
    let r = eval("(or false 3 true)");
    assert_eq!(span(r), (10, 1));
    let r = eval("(mul 1)");
    assert_eq!(span(r), (1, 3));
}

#[test]
fn refusals_name_operation_and_operands() {
    assert_eq!(
        kind(eval("(add 1 true)")),
        EvalErrorMessage::InvalidArgument("Cannot (add Integer(1) Boolean(true))".to_owned())
    );
    assert_eq!(
        kind(eval("(not -5)")),
        EvalErrorMessage::InvalidArgument("Cannot (not Integer(-5))".to_owned())
    );
    assert_eq!(
        kind(eval("(and true 1.5)")),
        EvalErrorMessage::InvalidArgument("Cannot (and Boolean(true) Float(1.5))".to_owned())
    );
    assert_eq!(
        kind(eval("(fract 2)")),
        EvalErrorMessage::InvalidArgument("Only floats have fractional parts".to_owned())
    );
}

#[test]
fn invalid_characters_are_escaped_in_messages() {
    assert_eq!(
        eval("'").unwrap_err().message.to_string(),
        "Invalid character '\\'' for this position"
    );
    assert_eq!(
        eval("\u{1}").unwrap_err().message.to_string(),
        "Invalid character '\\u{1}' for this position"
    );
    assert_eq!(
        eval("\\").unwrap_err().message.to_string(),
        "Invalid character '\\\\' for this position"
    );
    assert_eq!(eval("é").unwrap_err().message.to_string(), "Invalid character 'é' for this position");
}

#[test]
fn given_float_results_are_returned() {
    let one = Primitive::Integer(1);
    let half = float(0.5);
    assert_eq!(one.add_given(&half, 1.5f64.to_bits(), &F64), Ok(float(1.5)));
    assert_eq!(one.mul_given(&half, 0.5f64.to_bits(), &F64), Ok(float(0.5)));
    assert_eq!(one.add_given(&Primitive::Integer(2), 0, &F64), Ok(Primitive::Integer(3)));
    assert_eq!(float(2.25).fract_given(0.25f64.to_bits()), Ok(float(0.25)));
    assert_eq!(float(2.25).fract(&F64), Ok(float(0.25)));
    assert_eq!(float(-2.25).fract(&F64), Ok(float(-0.25)));
}

#[test]
fn the_largest_double_below_two_to_the_127_is_the_limit() {
    let two_127 = float(170141183460469231731687303715884105728.0);
    assert!(!Primitive::Integer(i128::MAX).equals(&two_127, &F64));
    assert!(Primitive::Integer(i128::MIN).equals(&float(-170141183460469231731687303715884105728.0), &F64));
}
