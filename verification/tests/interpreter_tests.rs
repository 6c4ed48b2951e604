use ssharp::error::SSharpError;
use ssharp::interpreter::environment::Environment;
use ssharp::interpreter::schedule::Reply;
use ssharp::interpreter::{Action, Interpreter};
use ssharp::parser::ast::{BinOp, Expr, Program, Stmt};
use ssharp::lexer::token::TokenKind;
use ssharp::parser::{SourceError, parse_source};

/// Reads a program; a syntax error at a number token shows the float it stands for.
fn parse_program(source: &str) -> Result<Program, SSharpError> {
    match parse_source(source) {
        Ok(program) => Ok(program),
        Err(SourceError::Lex(e)) => Err(e),
        Err(SourceError::Syntax(e)) => {
            let value = match &e.found {
                TokenKind::Number(text) => format!("{:?}", text.parse::<f64>().unwrap()),
                _ => String::new(),
            };
            Err(e.to_parse_error(&value))
        }
    }
}

/// A small evaluator for numbers and strings, enough to drive the interpreter.
#[derive(Clone, Debug, PartialEq)]
enum Val {
    Num(f64),
    Text(String),
    Truth(bool),
}

impl Val {
    fn show(&self) -> String {
        match self {
            Val::Num(n) => format!("{}", n),
            Val::Text(s) => s.clone(),
            Val::Truth(b) => format!("{}", b),
        }
    }

    fn truthy(&self) -> bool {
        match self {
            Val::Num(n) => *n != 0.0,
            Val::Text(s) => !s.is_empty(),
            Val::Truth(b) => *b,
        }
    }
}

struct World {
    env: Environment<Val>,
    input: Vec<String>,
    output: String,
}

impl World {
    fn eval(&self, e: &Expr) -> Result<Val, SSharpError> {
        match e {
            Expr::Number(text) => Ok(Val::Num(text.parse::<f64>().unwrap())),
            Expr::Str(s) => Ok(Val::Text(s.clone())),
            Expr::Identifier(id) => self.env.get(id),
            Expr::Binary { left, op, right } => {
                let l = self.eval(left)?;
                let r = self.eval(right)?;
                match (l, r) {
                    (Val::Num(_), Val::Num(b)) if *op == BinOp::Div && b == 0.0 => {
                        Err(SSharpError::RuntimeError { message: "Division by zero".to_string() })
                    }
                    (Val::Num(a), Val::Num(b)) => Ok(match op {
                        BinOp::Add => Val::Num(a + b),
                        BinOp::Sub => Val::Num(a - b),
                        BinOp::Mul => Val::Num(a * b),
                        BinOp::Div => Val::Num(a / b),
                        BinOp::Eq => Val::Truth((a - b).abs() < f64::EPSILON),
                        BinOp::Gt => Val::Truth(a > b),
                        BinOp::Lt => Val::Truth(a < b),
                        BinOp::GtEq => Val::Truth(a >= b),
                        BinOp::LtEq => Val::Truth(a <= b),
                    }),
                    (a, b) => Ok(Val::Text(format!("{}{}", a.show(), b.show()))),
                }
            }
        }
    }

    fn perform(&mut self, s: &Stmt) -> Result<(), SSharpError> {
        match s {
            Stmt::Ask { prompt, target } => {
                self.output.push_str(prompt);
                let line = self.input.remove(0);
                let v = match line.trim().parse::<f64>() {
                    Ok(n) => Val::Num(n),
                    Err(_) => Val::Text(line.trim().to_string()),
                };
                if !target.is_empty() {
                    self.env.set(target, v);
                }
                Ok(())
            }
            Stmt::Assign { value, target } => {
                let v = self.eval(value)?;
                self.env.set(target, v);
                Ok(())
            }
            Stmt::Display { value } => {
                let v = self.eval(value)?;
                self.output.push_str(&v.show());
                self.output.push('\n');
                Ok(())
            }
            _ => Ok(()),
        }
    }
}

fn run(program: &Program, input: &[&str]) -> (Result<(), SSharpError>, String, usize) {
    let mut world = World {
        env: Environment::new(),
        input: input.iter().map(|s| s.to_string()).collect(),
        output: String::new(),
    };
    let (mut interp, mut action) = Interpreter::start(program);
    let mut actions = 0;
    loop {
        actions += 1;
        let reply = match action {
            Action::Perform(s) => match world.perform(s) {
                Ok(()) => Reply::Done,
                Err(e) => Reply::Error(e),
            },
            Action::Test(e) => match world.eval(e) {
                Ok(v) => Reply::Truth(v.truthy()),
                Err(e) => Reply::Error(e),
            },
            Action::Count(e) => match world.eval(e) {
                Ok(Val::Num(n)) => Reply::Times(n.max(0.0) as usize),
                Ok(v) => Reply::Error(SSharpError::RuntimeError {
                    message: format!("Repeat count must be a number, got '{}'", v.show()),
                }),
                Err(e) => Reply::Error(e),
            },
            Action::Finished => return (Ok(()), world.output, actions),
            Action::Failed(e) => return (Err(e), world.output, actions),
        };
        assert!(interp.expects(&reply));
        action = interp.resume(reply);
    }
}

fn run_source(source: &str, input: &[&str]) -> Result<String, SSharpError> {
    let program = parse_program(source)?;
    let (result, output, _) = run(&program, input);
    result.map(|_| output)
}

const ACCESS: &str = r#"
    when (start_clicked).
    ask "How old are you?" and save to age.
    if (age >= 18), display "Access granted".
    if (age < 18), display "Access denied".
"#;

#[test]
fn test_primary_milestone_accepted() {
    let output = run_source(ACCESS, &["25\n"]).unwrap();
    assert!(output.contains("Access granted"));
    assert!(!output.contains("Access denied"));
}

#[test]
fn test_primary_milestone_rejected() {
    let output = run_source(ACCESS, &["15\n"]).unwrap();
    assert!(output.contains("Access denied"));
    assert!(!output.contains("Access granted"));
}

#[test]
fn test_repeat_loop() {
    let source = r#"
        when (start_clicked).
        repeat (3), display "Hello".
    "#;
    let output = run_source(source, &[]).unwrap();
    assert_eq!(output, "Hello\nHello\nHello\n");
}

#[test]
fn repeat_zero_times_skips_the_body() {
    let output = run_source("when (go). repeat (0), display \"x\". display \"done\".", &[]).unwrap();
    assert_eq!(output, "done\n");
}

#[test]
fn while_loop_runs_until_its_condition_fails() {
    let source = "when (go). save 0 to i. while (i < 3), display i, save i + 1 to i. display \"end\".";
    let output = run_source(source, &[]).unwrap();
    assert_eq!(output, "0\n1\n2\nend\n");
}

#[test]
fn nested_blocks_run_in_order() {
    // The inner action list takes the first period, the outer one the second.
    let source = "when (go). repeat (2), if (1), display \"a\", display \"b\"..";
    let output = run_source(source, &[]).unwrap();
    assert_eq!(output, "a\nb\na\nb\n");
}

#[test]
fn error_stops_the_program() {
    let source = "when (go). display \"before\". display missing. display \"after\".";
    let program = parse_program(source).unwrap();
    let (result, output, _) = run(&program, &[]);
    assert_eq!(output, "before\n");
    match result {
        Err(SSharpError::RuntimeError { message }) => {
            assert_eq!(message, "Undefined variable 'missing'")
        }
        other => panic!("Expected a runtime error, got {:?}", other),
    }
}

#[test]
fn function_definition_does_nothing_when_run() {
    let output = run_source("when (go). define function f(a), return a. display 1.", &[]).unwrap();
    assert_eq!(output, "1\n");
}

#[test]
fn empty_program_finishes_at_once() {
    let program = parse_program("when (go).").unwrap();
    let (result, output, actions) = run(&program, &[]);
    assert!(result.is_ok());
    assert_eq!(output, "");
    assert_eq!(actions, 1);
}

#[test]
fn stopped_interpreter_takes_no_reply() {
    let program = parse_program("when (go).").unwrap();
    let (interp, action) = Interpreter::start(&program);
    assert!(matches!(action, Action::Finished));
    assert!(!interp.expects(&Reply::Done));
    assert!(!interp.expects(&Reply::Truth(true)));
}

#[test]
fn error_text_names_the_place() {
    let e = parse_program("when (go). display %.").unwrap_err();
    assert_eq!(e.to_text(), "Lex Error at line 1, column 20: Unexpected character '%'");
    let e = SSharpError::RuntimeError { message: "Division by zero".to_string() };
    assert_eq!(e.to_text(), "Runtime Error: Division by zero");
}

/// The example program of the README (`examples/access_control.ssharp`).
const ACCESS_CONTROL_EXAMPLE: &str = "when (start_clicked).
ask \"How old are you?\" and save to age.
if (age >= 18), display \"Access granted\".
if (age < 18), display \"Access denied\".
";

#[test]
fn test_access_granted() {
    let output = run_source(ACCESS_CONTROL_EXAMPLE, &["25\n"]).unwrap();
    assert!(output.contains("Access granted"), "Expected 'Access granted' in output: {}", output);
    assert!(!output.contains("Access denied"), "Should not contain 'Access denied': {}", output);
}

#[test]
fn test_access_denied() {
    let output = run_source(ACCESS_CONTROL_EXAMPLE, &["15\n"]).unwrap();
    assert!(output.contains("Access denied"), "Expected 'Access denied' in output: {}", output);
    assert!(!output.contains("Access granted"), "Should not contain 'Access granted': {}", output);
}

#[test]
fn failing_condition_inside_a_while_stops_the_loop() {
    let source = "when (go). save 2 to i. while (1 / i > 0), display i, save i - 1 to i. display \"end\".";
    let program = parse_program(source).unwrap();
    let (result, output, _) = run(&program, &[]);
    assert_eq!(output, "2\n1\n");
    match result {
        Err(SSharpError::RuntimeError { message }) => assert_eq!(message, "Division by zero"),
        other => panic!("Expected a runtime error, got {:?}", other),
    }
}
