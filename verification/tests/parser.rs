use lambda_calculus::environment::Environment;
use lambda_calculus::lambda::Lambda;
use lambda_calculus::parsing::{parse, parse_variables, MissingDefinition};
use lambda_calculus::tokens::{tokenize, Token};

fn var(name: &str) -> Lambda {
    Lambda::variable(name)
}

fn fun(param: &str, body: Lambda) -> Lambda {
    Lambda::Function(param.to_string(), Box::new(body))
}

fn app(function: Lambda, argument: Lambda) -> Lambda {
    Lambda::Application(Box::new(function), Box::new(argument))
}

fn read(text: &str) -> Option<Lambda> {
    Lambda::parse_tokens(tokenize(text), None)
}

#[test]
fn parse_nothing_gives_nothing() {
    assert_eq!(read(""), None);
    assert_eq!(Lambda::parse_tokens(vec![], None), None);
    assert_eq!(read(") . :="), None);
}

#[test]
fn parse_single_identifier() {
    assert_eq!(read("x"), Some(var("x")));
}

#[test]
fn parse_curried_function() {
    assert_eq!(read("\\x y.x"), Some(fun("x", fun("y", var("x")))));
    assert_eq!(Lambda::from_string("\\x y.x"), Some(fun("x", fun("y", var("x")))));
}

#[test]
fn parse_application_is_left_associative() {
    let expected = app(app(var("a"), var("b")), var("c"));
    assert_eq!(read("(a b) c"), Some(expected.clone()));
    assert_eq!(read("a b c"), Some(expected));
    assert_eq!(read("a (b c)"), Some(app(var("a"), app(var("b"), var("c")))));
}

#[test]
fn parse_nested_groups() {
    assert_eq!(read("((a))"), Some(var("a")));
    assert_eq!(
        read("(a (b (c d))) e"),
        Some(app(
            app(var("a"), app(var("b"), app(var("c"), var("d")))),
            var("e")
        ))
    );
}

#[test]
fn parse_function_reaches_to_the_end_of_its_scope() {
    assert_eq!(read("\\x.x y z"), Some(fun("x", app(app(var("x"), var("y")), var("z")))));
    assert_eq!(
        read("(\\x.x y) z"),
        Some(app(fun("x", app(var("x"), var("y"))), var("z")))
    );
    assert_eq!(read("\\x.\\y.x"), Some(fun("x", fun("y", var("x")))));
}

#[test]
fn parse_function_drops_what_was_read_before_it() {
    assert_eq!(read("a b \\x.x"), Some(fun("x", var("x"))));
    assert_eq!(read("f (a \\x.x)"), Some(app(var("f"), fun("x", var("x")))));
}

#[test]
fn parse_function_passes_over_other_tokens_among_its_parameters() {
    assert_eq!(read("\\x (y) := z.x"), Some(fun("x", fun("y", fun("z", var("x"))))));
}

#[test]
fn parse_function_without_parameter_fails() {
    assert_eq!(read("\\.x"), None);
    assert_eq!(read("\\ ( ) .x"), None);
    assert_eq!(read("a (\\.x)"), None);
}

#[test]
fn parse_function_without_dot_fails() {
    assert_eq!(read("\\x y"), None);
    assert_eq!(read("\\"), None);
}

#[test]
fn parse_function_without_body_fails() {
    assert_eq!(read("\\x."), None);
    assert_eq!(read("\\x. )"), None);
}

#[test]
fn parse_empty_group_fails() {
    assert_eq!(read("()"), None);
    assert_eq!(read("a () b"), None);
    assert_eq!(read("a ("), None);
}

#[test]
fn parse_unclosed_group_reaches_to_the_end() {
    assert_eq!(read("(a b"), Some(app(var("a"), var("b"))));
    assert_eq!(read("a (b (c d"), Some(app(var("a"), app(var("b"), app(var("c"), var("d"))))));
}

#[test]
fn parse_passes_over_stray_tokens() {
    assert_eq!(read("a ) b"), Some(app(var("a"), var("b"))));
    assert_eq!(read("a . b := c"), Some(app(app(var("a"), var("b")), var("c"))));
}

#[test]
fn parse_expands_definitions() {
    let mut env = Environment::new();
    env.insert("id".to_string(), fun("x", var("x")));
    let e = Lambda::parse_tokens(tokenize("id y (\\z.id)"), Some(&env));
    assert_eq!(
        e,
        Some(app(
            app(fun("x", var("x")), var("y")),
            fun("z", fun("x", var("x")))
        ))
    );
    assert_eq!(
        Lambda::parse_tokens(tokenize("id y"), None),
        Some(app(var("id"), var("y")))
    );
}

#[test]
fn parse_does_not_expand_parameters() {
    let mut env = Environment::new();
    env.insert("x".to_string(), var("bound"));
    let e = Lambda::parse_tokens(tokenize("\\x.x"), Some(&env));
    assert_eq!(e, Some(fun("x", var("bound"))));
}

#[test]
fn parse_variables_keeps_identifiers_only() {
    let vars = Lambda::parse_variables(tokenize("a (b) . \\ c := d"));
    assert_eq!(vars, vec![var("a"), var("b"), var("c"), var("d")]);
    assert_eq!(Lambda::parse_variables(vec![Token::Dot, Token::Lambda]), vec![]);
    assert_eq!(Lambda::parse_variables(vec![]), vec![]);
}

#[test]
fn free_parse_variables_keeps_identifiers_only() {
    assert_eq!(parse_variables(tokenize("x.(y")), vec![var("x"), var("y")]);
}

#[test]
fn free_parse_gives_the_term() {
    assert_eq!(parse(tokenize("\\x y.x")), fun("x", fun("y", var("x"))));
    assert_eq!(parse(tokenize("(a b) c")), app(app(var("a"), var("b")), var("c")));
}

#[test]
fn definition_binds_the_name() {
    let mut env = Environment::new();
    let outcome = Lambda::parse_definition(tokenize("id := \\x.x"), &mut env);
    assert_eq!(outcome, Ok(true));
    assert_eq!(env.len(), 1);
    assert_eq!(env.get("id"), Some(&fun("x", var("x"))));
}

#[test]
fn definition_persists_for_later_lines() {
    let mut env = Environment::new();
    assert_eq!(Lambda::parse_definition(tokenize("id := \\x.x"), &mut env), Ok(true));
    let e = Lambda::parse_tokens(tokenize("id id id"), Some(&env)).unwrap();
    assert_eq!(e.reduce(), fun("x", var("x")));
    assert_eq!(e.reduce().to_string(), "\\x.x");
}

#[test]
fn definition_sees_earlier_definitions() {
    let mut env = Environment::new();
    assert_eq!(Lambda::parse_definition(tokenize("a := \\x.x"), &mut env), Ok(true));
    assert_eq!(Lambda::parse_definition(tokenize("b := a a"), &mut env), Ok(true));
    assert_eq!(
        env.get("b"),
        Some(&app(fun("x", var("x")), fun("x", var("x"))))
    );
    // A name that is bound anew does not change what was parsed with the old term.
    assert_eq!(Lambda::parse_definition(tokenize("a := y"), &mut env), Ok(true));
    assert_eq!(env.get("a"), Some(&var("y")));
    assert_eq!(
        env.get("b"),
        Some(&app(fun("x", var("x")), fun("x", var("x"))))
    );
    assert_eq!(env.len(), 2);
}

#[test]
fn definition_of_itself_uses_the_old_meaning() {
    let mut env = Environment::new();
    assert_eq!(Lambda::parse_definition(tokenize("a := a b"), &mut env), Ok(true));
    assert_eq!(env.get("a"), Some(&app(var("a"), var("b"))));
    assert_eq!(Lambda::parse_definition(tokenize("a := a c"), &mut env), Ok(true));
    assert_eq!(env.get("a"), Some(&app(app(var("a"), var("b")), var("c"))));
}

#[test]
fn other_lines_are_no_definition() {
    let mut env = Environment::new();
    assert_eq!(Lambda::parse_definition(tokenize("a b"), &mut env), Ok(false));
    assert_eq!(Lambda::parse_definition(tokenize(""), &mut env), Ok(false));
    assert_eq!(Lambda::parse_definition(tokenize("a"), &mut env), Ok(false));
    assert_eq!(Lambda::parse_definition(tokenize(":= a"), &mut env), Ok(false));
    assert_eq!(Lambda::parse_definition(tokenize("(a) := b"), &mut env), Ok(false));
    assert_eq!(Lambda::parse_definition(tokenize("a b := c"), &mut env), Ok(false));
    assert_eq!(env.len(), 0);
}

#[test]
fn definition_without_a_term_is_an_error() {
    let mut env = Environment::new();
    env.insert("two".to_string(), var("kept"));
    let outcome = Lambda::parse_definition(tokenize("two :="), &mut env);
    assert_eq!(outcome, Err(MissingDefinition { name: "two".to_string() }));
    assert_eq!(outcome.unwrap_err().message(), "Missing definition for two");
    assert_eq!(
        Lambda::parse_definition(tokenize("three := \\.x"), &mut env),
        Err(MissingDefinition { name: "three".to_string() })
    );
    assert_eq!(env.len(), 1);
    assert_eq!(env.get("two"), Some(&var("kept")));
    assert_eq!(env.get("three"), None);
}

#[test]
fn environment_starts_empty() {
    let env = Environment::new();
    assert_eq!(env.len(), 0);
    assert_eq!(env.get("a"), None);
    assert!(!env.contains("a"));
}

#[test]
fn environment_insert_then_get() {
    let mut env = Environment::new();
    env.insert("a".to_string(), var("x"));
    env.insert("b".to_string(), var("y"));
    assert_eq!(env.len(), 2);
    assert_eq!(env.get("a"), Some(&var("x")));
    assert_eq!(env.get("b"), Some(&var("y")));
    assert_eq!(env.get("c"), None);
    assert!(env.contains("a"));
    assert!(!env.contains("ab"));
}

#[test]
fn environment_insert_overwrites() {
    let mut env = Environment::new();
    env.insert("a".to_string(), var("x"));
    env.insert("b".to_string(), var("y"));
    env.insert("a".to_string(), var("z"));
    assert_eq!(env.len(), 2);
    assert_eq!(env.get("a"), Some(&var("z")));
    assert_eq!(env.get("b"), Some(&var("y")));
}
