use rpn_calc::eval::eval;
use rpn_calc::parse::parse_expression;
use rpn_calc::token::{Operator, Token};
use rpn_calc::trace::{render_stack_trace, render_trace, token_text};

fn number(text: &str) -> Option<f32> {
    text.parse::<f32>().ok()
}

fn apply(op: Operator, left: f32, right: f32) -> f32 {
    match op {
        Operator::Add => left + right,
        Operator::Sub => left - right,
        Operator::Mul => left * right,
        Operator::Div => left / right,
    }
}

fn show(value: f32) -> String {
    format!("{}", value)
}

fn strings(texts: &[&str]) -> Vec<String> {
    texts.iter().map(|t| t.to_string()).collect()
}

fn trace_of(line: &str) -> Vec<String> {
    let tokens = parse_expression(line, number).unwrap();
    let (_, history) = eval(&tokens, apply).unwrap();
    render_stack_trace(&tokens, &history, show)
}

#[test]
fn token_text_of_numbers_and_operators() {
    assert_eq!(token_text(&Token::Number(7.0f32), &show), "7");
    assert_eq!(token_text(&Token::Number(-0.5f32), &show), "-0.5");
    assert_eq!(token_text(&Token::<f32>::Operator(Operator::Add), &show), "+");
    assert_eq!(token_text(&Token::<f32>::Operator(Operator::Sub), &show), "-");
    assert_eq!(token_text(&Token::<f32>::Operator(Operator::Mul), &show), "*");
    assert_eq!(token_text(&Token::<f32>::Operator(Operator::Div), &show), "/");
}

#[test]
fn trace_of_three_four_add() {
    assert_eq!(
        trace_of("3 4 +"),
        vec![
            "ip: <>",
            "stack:[3]  expr[3 <4> +]",
            "stack:[3, 4]  expr[3 4 <+>]",
            "stack:[7]  expr[3 4 +]",
        ]
    );
}

#[test]
fn trace_has_one_heading_and_one_line_for_each_token() {
    let lines = trace_of("2 3 * 4 5 * + 6 /");
    assert_eq!(lines.len(), 10);
    assert_eq!(lines[0], "ip: <>");
    assert_eq!(lines.iter().filter(|line| line.as_str() == "ip: <>").count(), 1);
    for line in &lines[1..] {
        assert!(line.starts_with("stack:["));
        assert!(line.ends_with("]"));
        assert!(line.contains("]  expr["));
    }
}

#[test]
fn last_line_marks_no_token() {
    let lines = trace_of("10 2 /");
    assert_eq!(lines.last().unwrap(), "stack:[5]  expr[10 2 /]");
    assert!(!lines.last().unwrap().contains('<'));
    assert!(lines[1].contains("<2>"));
    assert!(lines[2].contains("</>"));
}

#[test]
fn trace_of_a_single_number() {
    assert_eq!(trace_of("1.5"), vec!["ip: <>", "stack:[1.5]  expr[1.5]"]);
}

#[test]
fn trace_writes_numbers_as_show_does() {
    assert_eq!(
        trace_of("1 0 / -2.50 *"),
        vec![
            "ip: <>",
            "stack:[1]  expr[1 <0> / -2.5 *]",
            "stack:[1, 0]  expr[1 0 </> -2.5 *]",
            "stack:[inf]  expr[1 0 / <-2.5> *]",
            "stack:[inf, -2.5]  expr[1 0 / -2.5 <*>]",
            "stack:[-inf]  expr[1 0 / -2.5 *]",
        ]
    );
    assert_eq!(
        trace_of("0 0 /").last().unwrap(),
        "stack:[NaN]  expr[0 0 /]"
    );
}

#[test]
fn trace_of_nothing_is_nothing() {
    let no_tokens: Vec<Token<f32>> = Vec::new();
    let no_history: Vec<Vec<f32>> = Vec::new();
    assert_eq!(render_stack_trace(&no_tokens, &no_history, show), Vec::<String>::new());
    let tokens = vec![Token::Number(1.0f32)];
    assert_eq!(render_stack_trace(&tokens, &no_history, show), Vec::<String>::new());
    assert_eq!(render_trace(&strings(&["1"]), &Vec::new()), Vec::<String>::new());
}

#[test]
fn render_trace_joins_and_marks() {
    let tokens = strings(&["a", "b", "c"]);
    let stacks = vec![strings(&["x"]), strings(&["x", "y"]), strings(&["x", "y", "z"])];
    assert_eq!(
        render_trace(&tokens, &stacks),
        vec![
            "ip: <>",
            "stack:[x]  expr[a <b> c]",
            "stack:[x, y]  expr[a b <c>]",
            "stack:[x, y, z]  expr[a b c]",
        ]
    );
}

#[test]
fn render_trace_of_an_empty_stack_and_an_empty_expression() {
    let stacks = vec![Vec::new(), strings(&["1"])];
    assert_eq!(
        render_trace(&strings(&["p", "q"]), &stacks),
        vec!["ip: <>", "stack:[]  expr[p <q>]", "stack:[1]  expr[p q]"]
    );
    assert_eq!(
        render_trace(&Vec::new(), &stacks),
        vec!["ip: <>", "stack:[]  expr[]", "stack:[1]  expr[]"]
    );
}

#[test]
fn render_trace_with_more_stacks_than_tokens() {
    let stacks = vec![strings(&["1"]), strings(&["2"]), strings(&["3"])];
    assert_eq!(
        render_trace(&strings(&["t"]), &stacks),
        vec![
            "ip: <>",
            "stack:[1]  expr[t]",
            "stack:[2]  expr[t]",
            "stack:[3]  expr[t]",
        ]
    );
}

#[test]
fn rendering_twice_gives_the_same_lines() {
    let tokens = parse_expression("1 2 + 3 *", number).unwrap();
    let (_, history) = eval(&tokens, apply).unwrap();
    let first = render_stack_trace(&tokens, &history, show);
    let second = render_stack_trace(&tokens, &history, show);
    assert_eq!(first, second);
}
