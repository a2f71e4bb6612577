use laser_studio::errors::{get_position_from_span, ErrorType};
use laser_studio::eval::{builtin, context_field, resolve_call, Builtin, ContextField, RawEvalError};
use laser_studio::grid::{failed_indexes, grid_point};
use laser_studio::lexer::{tokenize, TokenKind};
use laser_studio::nodes::{LogicalOperator, MathematicalOperator, Operator};
use laser_studio::parser::{parse_with_diagnostics, parser, process_parser_error, Assignment, BinaryOperation, Expected, Expr, UnaryOperation};
use laser_studio::project::{Project, TextData};
use laser_studio::span::Span;
use laser_studio::studio::{FileDialogSelection, LaserStudioApp, SaveAction, SelectionAction, Workspace};
use laser_studio::table::{record_outcome, resolve_variable, text_of, Binding, VariableTable};

fn parse_ok(text: &str) -> Vec<Assignment> {
    match parser(text) {
        Ok(v) => v,
        Err(e) => panic!("unexpected syntax errors: {:?}", e),
    }
}

fn node_value(a: &Assignment, text: &str, i: usize) -> f64 {
    let node = a.expression.nodes[i];
    match node.expr {
        Expr::Number => text[node.span.start..node.span.end].parse().unwrap(),
        Expr::Group(c) => node_value(a, text, c),
        Expr::UnaryExpression(UnaryOperation::Negate, c) => -node_value(a, text, c),
        Expr::BinaryExpression(l, op, r) => {
            let x = node_value(a, text, l);
            let y = node_value(a, text, r);
            match op {
                BinaryOperation::Add => x + y,
                BinaryOperation::Subtract => x - y,
                BinaryOperation::Multiply => x * y,
                BinaryOperation::Divide => x / y,
                BinaryOperation::Exponent => x.powf(y),
                _ => panic!("operator not used in these tests"),
            }
        }
        _ => panic!("node not used in these tests"),
    }
}

fn value_of(a: &Assignment, text: &str) -> f64 {
    node_value(a, text, a.expression.root)
}

#[test]
fn multiplication_binds_tighter_than_addition() {
    let text = "a = 2 + 3 * 4;";
    let program = parse_ok(text);
    assert_eq!(program.len(), 1);
    let a = &program[0];
    let root = a.expression.nodes[a.expression.root];
    match root.expr {
        Expr::BinaryExpression(l, BinaryOperation::Add, r) => {
            assert_eq!(a.expression.nodes[l].expr, Expr::Number);
            assert!(matches!(a.expression.nodes[r].expr, Expr::BinaryExpression(_, BinaryOperation::Multiply, _)));
        }
        other => panic!("unexpected root {:?}", other),
    }
    assert_eq!(value_of(a, text), 14.0);
}

#[test]
fn exponent_folds_to_the_left() {
    let text = "a = 2 ^ 3 ^ 2;";
    let program = parse_ok(text);
    let a = &program[0];
    let root = a.expression.nodes[a.expression.root];
    match root.expr {
        Expr::BinaryExpression(l, BinaryOperation::Exponent, r) => {
            assert!(matches!(a.expression.nodes[l].expr, Expr::BinaryExpression(_, BinaryOperation::Exponent, _)));
            assert_eq!(a.expression.nodes[r].expr, Expr::Number);
            assert_eq!(a.expression.nodes[r].span, Span { start: 12, end: 13 });
        }
        other => panic!("unexpected root {:?}", other),
    }
    assert_eq!(value_of(a, text), 64.0);
}

#[test]
fn subtraction_folds_to_the_left() {
    let text = "a = 10 - 4 - 3;";
    let program = parse_ok(text);
    assert_eq!(value_of(&program[0], text), 3.0);
}

#[test]
fn groups_and_negation() {
    let text = "a = -(2 + 3) * 2;";
    let program = parse_ok(text);
    assert_eq!(value_of(&program[0], text), -10.0);
}

#[test]
fn undefined_variable_is_one_error_at_its_span() {
    let text = "a = b;";
    let program = parse_ok(text);
    let a = &program[0];
    let node = a.expression.nodes[a.expression.root];
    assert_eq!(node.expr, Expr::Variable);
    assert_eq!(node.span, Span { start: 4, end: 5 });
    let name = text_of(node.span, text);
    assert_eq!(name, "b");
    let mut table: VariableTable<f64> = VariableTable::new();
    let outcome = resolve_variable(&name, &table, node.span);
    let e = match outcome {
        Err(e) => e,
        Ok(_) => panic!("b has no value"),
    };
    assert_eq!(e.span, Span { start: 4, end: 5 });
    assert_eq!(e.error, "Cannot find variable 'b'. Are you using it too early?");
    let mut errors = Vec::new();
    record_outcome(&mut table, &mut errors, text_of(a.name, text), Err(e), text);
    assert_eq!(errors.len(), 1);
    assert_eq!(errors[0].error_type, ErrorType::EvaluationError);
    assert_eq!((errors[0].line_number, errors[0].col_number), (1, 4));
    assert!(errors[0].reason.contains("Cannot find variable"));
    assert_eq!(table.get("a"), None);
}

#[test]
fn sin_with_two_arguments_is_an_arity_error() {
    let text = "a = sin(1,2);";
    let program = parse_ok(text);
    let a = &program[0];
    let node = a.expression.nodes[a.expression.root];
    let (name_span, count) = match node.expr {
        Expr::Call(name, _first, count) => (name, count),
        other => panic!("unexpected root {:?}", other),
    };
    assert_eq!(count, 2);
    let name = text_of(name_span, text);
    assert_eq!(name, "sin");
    let e = resolve_call(&name, count, node.span).unwrap_err();
    assert_eq!(e.error, "Function 'sin' expected 1 argument, but only got 2 arguments.");
    assert_eq!(e.span, Span { start: 4, end: 12 });
}

#[test]
fn arity_error_with_singular_count() {
    let e = resolve_call("lerp", 1, Span { start: 0, end: 7 }).unwrap_err();
    assert_eq!(e.error, "Function 'lerp' expected 3 arguments, but only got 1 argument.");
    let e = resolve_call("atan2", 12, Span { start: 0, end: 7 }).unwrap_err();
    assert_eq!(e.error, "Function 'atan2' expected 2 arguments, but only got 12 arguments.");
}

#[test]
fn unknown_function_error() {
    let e: RawEvalError = resolve_call("tanh", 1, Span { start: 3, end: 10 }).unwrap_err();
    assert_eq!(e.error, "No such function 'tanh'.");
    assert_eq!(e.span, Span { start: 3, end: 10 });
    assert_eq!(resolve_call("rand", 0, Span { start: 0, end: 6 }).unwrap(), Builtin::Rand);
    assert_eq!(resolve_call("if", 3, Span { start: 0, end: 6 }).unwrap(), Builtin::If);
}

#[test]
fn builtin_table() {
    assert_eq!(builtin("max"), Some(Builtin::Max));
    assert_eq!(builtin("max").unwrap().arity(), 2);
    assert_eq!(builtin("lerp").unwrap().arity(), 3);
    assert_eq!(builtin("sqrt").unwrap().arity(), 1);
    assert!(builtin("if").unwrap().is_lazy());
    assert!(!builtin("sin").unwrap().is_lazy());
    assert_eq!(builtin("Sin"), None);
}

#[test]
fn context_names_cannot_be_shadowed() {
    let mut table: VariableTable<f64> = VariableTable::new();
    table.insert("x".to_string(), 5.0);
    let r = resolve_variable("x", &table, Span { start: 0, end: 1 }).unwrap();
    assert_eq!(r, Binding::Context(ContextField::X));
    assert_eq!(context_field("projectionTime"), Some(ContextField::ProjectionTime));
    assert_eq!(context_field("projection_time"), None);
}

#[test]
fn grid_corners_of_twenty_by_twenty() {
    let first = grid_point(0, 20, 20);
    assert_eq!(first.x_numerator as f64 / first.x_denominator as f64, -100.0);
    assert_eq!(first.y_numerator as f64 / first.y_denominator as f64, 100.0);
    let last = grid_point(399, 20, 20);
    assert_eq!(last.x_numerator as f64 / last.x_denominator as f64, 100.0);
    assert_eq!(last.y_numerator as f64 / last.y_denominator as f64, -100.0);
    assert_eq!((last.column, last.row), (19, 19));
    assert_eq!(last.fraction_numerator, last.fraction_denominator);
}

#[test]
fn grid_point_in_a_rectangle() {
    let p = grid_point(7, 5, 3);
    assert_eq!((p.column, p.row), (2, 1));
    assert_eq!(p.x_numerator as f64 / p.x_denominator as f64, 0.0);
    assert_eq!(p.y_numerator as f64 / p.y_denominator as f64, 0.0);
    assert_eq!((p.fraction_numerator, p.fraction_denominator), (7, 14));
}

#[test]
fn parsing_twice_gives_the_same_tree() {
    let text = "x' = sin(index / count * tau) * 100;\ny' = if(x > 0, 1, -1) & !(y <= 2);";
    let first = format!("{:?}", parse_ok(text));
    let second = format!("{:?}", parse_ok(text));
    assert_eq!(first, second);
}

#[test]
fn an_error_at_one_point_marks_only_that_point() {
    let mut errors = Vec::new();
    for i in 0..400 {
        let mut here = Vec::new();
        if i == 57 {
            here.push(laser_studio::errors::Error {
                line_number: 1,
                col_number: 4,
                reason: "Cannot find variable 'b'. Are you using it too early?".to_string(),
                error_type: ErrorType::EvaluationError,
                id: 1,
            });
        }
        errors.push(here);
    }
    assert_eq!(failed_indexes(&errors), vec![57u16]);
    let empty: Vec<Vec<laser_studio::errors::Error>> = vec![Vec::new(); 400];
    assert!(failed_indexes(&empty).is_empty());
}

#[test]
fn redefinition_keeps_the_later_value() {
    let text = "a = 1; a = 2;";
    let program = parse_ok(text);
    assert_eq!(program.len(), 2);
    let mut table: VariableTable<f64> = VariableTable::new();
    let mut errors = Vec::new();
    for a in &program {
        let v = value_of(a, text);
        record_outcome(&mut table, &mut errors, text_of(a.name, text), Ok(v), text);
    }
    assert_eq!(table.get("a"), Some(2.0));
    assert_eq!(table.entries.len(), 1);
    assert!(errors.is_empty());
}

#[test]
fn table_value_or_default() {
    let mut table: VariableTable<f64> = VariableTable::new();
    table.insert("h".to_string(), 120.0);
    assert_eq!(table.value_or("h", 0.0), 120.0);
    assert_eq!(table.value_or("v", 1.0), 1.0);
}

fn coded(id: u8, text: &str) -> String {
    format!("P{}: {}", id, text)
}

fn first_error(text: &str) -> laser_studio::errors::Error {
    let errors = parser(text).unwrap_err();
    process_parser_error(errors[0], text)
}

#[test]
fn missing_semicolon_quotes_the_character() {
    let e = first_error("a = 1 2;");
    assert_eq!(e.id, 4);
    assert_eq!(e.reason, coded(4, "Unexpected character '2'. Perhaps you forgot a semi-colon?"));
    assert_eq!((e.line_number, e.col_number), (1, 6));
    assert_eq!(e.error_type, ErrorType::ParseError);
}

#[test]
fn missing_closing_parenthesis() {
    let e = first_error("a = (1;");
    assert_eq!(e.id, 5);
    assert_eq!(e.reason, coded(5, "Unexpected character ';'. Perhaps you forgot to close your parenthesis?"));
}

#[test]
fn shorthand_float_is_refused() {
    let e = first_error("a = .5;");
    assert_eq!(e.id, 3);
    assert_eq!(
        e.reason,
        coded(3, "Laser Studio doesn't support shorthand float literals (eg. .1). Please use full literals instead (eg. 0.1).")
    );
}

#[test]
fn end_of_file_inside_statement() {
    let e = first_error("a = 1");
    assert_eq!(e.id, 2);
    assert_eq!(e.reason, coded(2, "Unexpected end of file."));
}

#[test]
fn program_cannot_end_in_a_comment() {
    let e = first_error("a = 1; # note");
    assert_eq!(e.id, 1);
    assert_eq!(e.reason, coded(1, "Expressions cannot end in a comment."));
}

#[test]
fn unexpected_character_fallback() {
    let e = first_error("a = @;");
    assert_eq!(e.id, 0);
    assert_eq!(e.reason, coded(0, "Unexpected character '@'."));
    assert_eq!(first_error("a 1;").id, 0);
}

#[test]
fn every_syntax_error_is_reported() {
    let errors = parser("a = ;\nb = 2;\nc = (;").unwrap_err();
    assert_eq!(errors.len(), 2);
    assert_eq!(errors[0].expected, Expected::Expression);
    assert_eq!(errors[0].found, Some(';'));
    let second = process_parser_error(errors[1], "a = ;\nb = 2;\nc = (;");
    assert_eq!((second.line_number, second.col_number), (3, 5));
}

#[test]
fn comments_between_statements_are_skipped() {
    let text = "# heading\na = 1; # trailing\n\nb = a + 1;\n";
    let program = parse_ok(text);
    assert_eq!(program.len(), 2);
    assert_eq!(text_of(program[1].name, text), "b");
    assert_eq!(program[1].span, Span { start: 29, end: 39 });
}

#[test]
fn calls_with_no_and_many_arguments() {
    let text = "a = rand() + atan2(1, max(2, 3));";
    let program = parse_ok(text);
    let a = &program[0];
    let calls: Vec<(usize, usize)> = a
        .expression
        .nodes
        .iter()
        .filter_map(|n| match n.expr {
            Expr::Call(_, first, count) => Some((first, count)),
            _ => None,
        })
        .collect();
    assert_eq!(calls.len(), 3);
    assert_eq!(calls[0].1, 0);
    assert_eq!(calls.iter().map(|c| c.1).collect::<Vec<_>>(), vec![0, 2, 2]);
    let (first, count) = calls[2];
    let atan_args = &a.expression.arguments[first..first + count];
    assert_eq!(a.expression.nodes[atan_args[0]].expr, Expr::Number);
    assert!(matches!(a.expression.nodes[atan_args[1]].expr, Expr::Call(_, _, 2)));
}

#[test]
fn comparison_and_logic_levels() {
    let text = "a = 1 < 2 & 3 >= 4 | !0 == 1;";
    let program = parse_ok(text);
    let a = &program[0];
    let root = a.expression.nodes[a.expression.root];
    match root.expr {
        Expr::BinaryExpression(l, BinaryOperation::Or, r) => {
            assert!(matches!(a.expression.nodes[l].expr, Expr::BinaryExpression(_, BinaryOperation::And, _)));
            assert!(matches!(a.expression.nodes[r].expr, Expr::BinaryExpression(_, BinaryOperation::Equal, _)));
        }
        other => panic!("unexpected root {:?}", other),
    }
}

#[test]
fn primed_identifiers_are_names() {
    let chars: Vec<char> = "x' = 1;".chars().collect();
    let tokens = tokenize(&chars);
    assert_eq!(tokens[0].kind, TokenKind::Identifier);
    assert_eq!(tokens[0].span, Span { start: 0, end: 2 });
    assert_eq!(tokens.last().unwrap().kind, TokenKind::End);
    let program = parse_ok("x' = 1;\ny' = 2.5;");
    assert_eq!(text_of(program[0].name, "x' = 1;\ny' = 2.5;"), "x'");
    assert_eq!(program[1].expression.nodes[0].span, Span { start: 13, end: 16 });
}

#[test]
fn positions_of_offsets() {
    let text = "a=1;\nbb = 2;";
    assert_eq!(get_position_from_span(Span { start: 0, end: 1 }, text), (1, 0));
    assert_eq!(get_position_from_span(Span { start: 4, end: 5 }, text), (2, 0));
    assert_eq!(get_position_from_span(Span { start: 3, end: 4 }, text), (1, 3));
    assert_eq!(get_position_from_span(Span { start: 5, end: 6 }, text), (2, 0));
    assert_eq!(get_position_from_span(Span { start: 8, end: 9 }, text), (2, 3));
}

#[test]
fn operators_by_symbol() {
    assert_eq!(Operator::match_operator("+"), Operator::MathematicalOperator(MathematicalOperator::Add));
    assert_eq!(Operator::match_operator("<="), Operator::LogicalOperator(LogicalOperator::LessThanOrEqualTo));
    assert_eq!(Operator::match_operator("!"), Operator::LogicalOperator(LogicalOperator::Not));
    assert_eq!(Operator::match_operator("**"), Operator::MathematicalOperator(MathematicalOperator::InvalidOperation));
}

#[test]
fn new_project_defaults() {
    let p = Project::default();
    assert_eq!(p.version, 2);
    assert_eq!((p.text_data.size_x, p.text_data.size_y), (20, 20));
    assert!(p.text_data.content.contains("# This is some test content."));
    let t = TextData::default();
    assert!(parser(&t.content).unwrap().is_empty());
}

#[test]
fn editor_file_actions() {
    let mut app = LaserStudioApp::default();
    assert_eq!(app.tab, Workspace::Home);
    assert!(matches!(app.save_current_project(), SaveAction::AskForPath));
    match app.check_for_selection(Some(FileDialogSelection::Open("a.lsp".to_string()))) {
        SelectionAction::OpenProject(p) => assert_eq!(p, "a.lsp"),
        other => panic!("unexpected action {:?}", other),
    }
    assert!(matches!(app.check_for_selection(None), SelectionAction::Nothing));
    let mut loaded = Project::default();
    loaded.text_data.content = "a = 1;".to_string();
    app.finish_open(Some(loaded));
    assert_eq!(app.tab, Workspace::Text);
    assert_eq!(app.project.text_data.content, "a = 1;");
    app.current_path = Some("b.lsp".to_string());
    match app.save_current_project() {
        SaveAction::WriteTo(p) => assert_eq!(p, "b.lsp"),
        other => panic!("unexpected action {:?}", other),
    }
    app.finish_open(None);
    assert_eq!(app.project.text_data.content, "a = 1;");
}

#[test]
fn diagnostics_for_every_syntax_error() {
    let text = "a = 1 2;\nb = (3;\nc = 4;";
    let errors = match parse_with_diagnostics(text) {
        Err(e) => e,
        Ok(_) => panic!("the text has syntax errors"),
    };
    assert_eq!(errors.len(), 2);
    assert_eq!((errors[0].line_number, errors[0].col_number, errors[0].id), (1, 6, 4));
    assert_eq!((errors[1].line_number, errors[1].col_number, errors[1].id), (2, 6, 5));
    assert!(errors.iter().all(|e| e.error_type == ErrorType::ParseError));
    assert_eq!(parse_with_diagnostics("a = 1;").unwrap().len(), 1);
}

#[test]
fn empty_text_has_no_statements() {
    assert!(parser("").unwrap().is_empty());
    assert!(parser("  \n\t\n").unwrap().is_empty());
    assert_eq!(first_error("#").id, 1);
}

#[test]
fn smallest_and_largest_grids() {
    let p = grid_point(3, 2, 2);
    assert_eq!((p.x_numerator, p.x_denominator), (100, 1));
    assert_eq!((p.y_numerator, p.y_denominator), (-100, 1));
    let last = grid_point(255 * 255 - 1, 255, 255);
    assert_eq!(last.x_numerator, 100 * last.x_denominator);
    assert_eq!(last.y_numerator, -100 * last.y_denominator);
    assert_eq!((last.column, last.row), (254, 254));
    let wide = grid_point(599, 300, 2);
    assert_eq!((wide.x_numerator, wide.x_denominator), (100 * 299, 299));
    assert_eq!((wide.y_numerator, wide.y_denominator), (-100, 1));
    let most = grid_point(65535, 256, 256);
    assert_eq!((most.column, most.row), (255, 255));
}

#[test]
fn evaluation_error_codes() {
    let span = Span { start: 0, end: 1 };
    let table: VariableTable<f64> = VariableTable::new();
    assert_eq!(resolve_variable("q", &table, span).unwrap_err().id, laser_studio::eval::MISSING_VARIABLE);
    assert_eq!(resolve_call("nope", 0, span).unwrap_err().id, laser_studio::eval::UNKNOWN_FUNCTION);
    assert_eq!(resolve_call("cos", 0, span).unwrap_err().id, laser_studio::eval::WRONG_ARGUMENT_COUNT);
}

#[test]
fn recorded_error_keeps_earlier_values() {
    let text = "a = 1;\nb = c;";
    let mut table: VariableTable<f64> = VariableTable::new();
    let mut errors = Vec::new();
    record_outcome(&mut table, &mut errors, "a".to_string(), Ok(1.0), text);
    let e = resolve_variable("c", &table, Span { start: 11, end: 12 }).unwrap_err();
    record_outcome(&mut table, &mut errors, "b".to_string(), Err(e), text);
    assert_eq!(table.get("a"), Some(1.0));
    assert_eq!(table.get("b"), None);
    assert_eq!(errors.len(), 1);
    assert_eq!((errors[0].line_number, errors[0].col_number, errors[0].id), (2, 4, 1));
}

#[test]
fn positions_are_byte_offsets() {
    let text = "\u{e9}\nb";
    assert_eq!(get_position_from_span(Span { start: 3, end: 4 }, text), (2, 0));
    assert_eq!(get_position_from_span(Span { start: 2, end: 3 }, text), (2, 0));
    assert_eq!(get_position_from_span(Span { start: 0, end: 2 }, text), (1, 0));
    let text = "ab\ncd";
    assert_eq!(get_position_from_span(Span { start: 2, end: 3 }, text), (2, 0));
    assert_eq!(get_position_from_span(Span { start: 4, end: 5 }, text), (2, 1));
}

#[test]
fn spans_count_bytes_of_the_text() {
    let text = "# caf\u{e9}\nab = 3;";
    let program = parse_ok(text);
    assert_eq!(program[0].name, Span { start: 8, end: 10 });
    assert_eq!(text_of(program[0].name, text), "ab");
    let e = first_error("x = \u{e9};");
    assert_eq!(e.reason, coded(0, "Unexpected character '\u{e9}'."));
    assert_eq!((e.line_number, e.col_number), (1, 4));
    let errors = parser("x = \u{e9};").unwrap_err();
    assert_eq!(errors[0].span, Span { start: 4, end: 6 });
    assert_eq!(text_of(errors[0].span, "x = \u{e9};"), "\u{e9}");
}

#[test]
fn unicode_white_space_separates_tokens() {
    let program = parse_ok("a\u{a0}=\u{3000}1;\u{2028}b = a;");
    assert_eq!(program.len(), 2);
}

#[test]
fn every_reason_starts_with_its_code() {
    for text in ["a = 1", "a = 1; # c", "a = .5;", "a = 1 2;", "a = (1;", "a = @;"] {
        let e = first_error(text);
        assert!(e.reason.starts_with(&format!("P{}: ", e.id)), "{}", e.reason);
    }
}
