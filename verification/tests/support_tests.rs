use rlang::ast::AstNode;
use rlang::natural::dedup_names;
use rlang::natural::has_name;
use rlang::natural::insertion_point;
use rlang::natural::natural_sort;
use rlang::repl::Repl;
use rlang::repl::ReplNotice;
use rlang::repl::ReplResult;
use rlang::text::chars_of;
use rlang::text::i64_to_decimal;
use rlang::text::parse_i64;
use rlang::text::string_of;
use rlang::text::u64_to_decimal;
use rlang::types::Environment;

fn names(list: &[&str]) -> Vec<String> {
    list.iter().map(|n| n.to_string()).collect()
}

fn var(name: &str) -> AstNode {
    AstNode::Var { name: name.to_owned() }
}

#[test]
fn decimal_of_numbers() {
    assert_eq!(u64_to_decimal(0), "0");
    assert_eq!(u64_to_decimal(7), "7");
    assert_eq!(u64_to_decimal(10), "10");
    assert_eq!(u64_to_decimal(1234567890), "1234567890");
    assert_eq!(u64_to_decimal(u64::MAX), "18446744073709551615");
    assert_eq!(i64_to_decimal(0), "0");
    assert_eq!(i64_to_decimal(-1), "-1");
    assert_eq!(i64_to_decimal(i64::MAX), "9223372036854775807");
    assert_eq!(i64_to_decimal(i64::MIN), "-9223372036854775808");
}

#[test]
fn integers_from_text() {
    assert_eq!(parse_i64("0"), Some(0));
    assert_eq!(parse_i64("-0"), Some(0));
    assert_eq!(parse_i64("+17"), Some(17));
    assert_eq!(parse_i64("007"), Some(7));
    assert_eq!(parse_i64("-42"), Some(-42));
    assert_eq!(parse_i64("9223372036854775807"), Some(i64::MAX));
    assert_eq!(parse_i64("-9223372036854775808"), Some(i64::MIN));
    assert_eq!(parse_i64("9223372036854775808"), None);
    assert_eq!(parse_i64("-9223372036854775809"), None);
    assert_eq!(parse_i64("99999999999999999999999"), None);
    assert_eq!(parse_i64(""), None);
    assert_eq!(parse_i64("-"), None);
    assert_eq!(parse_i64("+"), None);
    assert_eq!(parse_i64("+-1"), None);
    assert_eq!(parse_i64("12a"), None);
    assert_eq!(parse_i64(" 1"), None);
    assert_eq!(parse_i64("1 "), None);
}

#[test]
fn decimal_and_back() {
    for n in [0, 1, -1, 9, 10, -10, 99, 100, 4096, -65535, i64::MAX, i64::MIN] {
        assert_eq!(parse_i64(&i64_to_decimal(n)), Some(n));
    }
}

#[test]
fn characters_of_text() {
    assert_eq!(chars_of("a\u{e9}z"), vec!['a', '\u{e9}', 'z']);
    assert_eq!(chars_of(""), Vec::<char>::new());
    let chars = chars_of("hello");
    assert_eq!(string_of(&chars, 1, 4), "ell");
    assert_eq!(string_of(&chars, 2, 2), "");
}

#[test]
fn natural_order_counts_numbers() {
    let sorted = natural_sort(&names(&["tmp.10", "tmp.2", "x.1", "a", "tmp.1", "tmp.100"]));
    assert_eq!(sorted, names(&["a", "tmp.1", "tmp.2", "tmp.10", "tmp.100", "x.1"]));
    assert_eq!(natural_sort(&names(&[".l10", ".l9", ".l1"])), names(&[".l1", ".l9", ".l10"]));
    assert_eq!(natural_sort(&vec![]), Vec::<String>::new());
}

#[test]
fn natural_sort_keeps_equal_names_in_order() {
    // names that differ in white space only come out as they went in
    let sorted = natural_sort(&names(&["b", "a 1", "a1", "a  1"]));
    assert_eq!(sorted, names(&["a 1", "a1", "a  1", "b"]));
}

#[test]
fn names_without_repetitions() {
    let list = names(&["b", "a", "b", "c", "a"]);
    assert_eq!(dedup_names(&list), names(&["b", "a", "c"]));
    assert!(has_name(&list, &"c".to_owned()));
    assert!(!has_name(&list, &"d".to_owned()));
}

#[test]
fn environment_latest_binding_counts() {
    let mut env = Environment::new();
    let x = "x".to_owned();
    assert!(!env.contains(&x));
    assert_eq!(env.get(&x), None);
    env.insert(x.clone(), AstNode::Int(1));
    env.insert("y".to_owned(), var("x"));
    env.insert(x.clone(), AstNode::Int(2));
    assert!(env.contains(&x));
    assert_eq!(env.get(&x), Some(&AstNode::Int(2)));
    assert_eq!(env.get(&"y".to_owned()), Some(&var("x")));
    assert_eq!(env.get_value_of(&"y".to_owned()), Some(&AstNode::Int(2)));
}

#[test]
fn environment_follows_variables_to_an_integer() {
    let mut env = Environment::new();
    env.insert("a".to_owned(), var("b"));
    env.insert("b".to_owned(), var("c"));
    env.insert("c".to_owned(), AstNode::Int(9));
    env.insert("r".to_owned(), AstNode::Prim { op: "read".to_owned(), args: vec![] });
    env.insert("s".to_owned(), var("r"));
    env.insert("loop".to_owned(), var("loop"));
    env.insert("p".to_owned(), var("q"));
    env.insert("q".to_owned(), var("p"));
    assert_eq!(env.get_value_of(&"a".to_owned()), Some(&AstNode::Int(9)));
    assert_eq!(env.get_value_of(&"c".to_owned()), Some(&AstNode::Int(9)));
    assert_eq!(env.get_value_of(&"r".to_owned()), None);
    assert_eq!(env.get_value_of(&"s".to_owned()), None);
    assert_eq!(env.get_value_of(&"loop".to_owned()), None);
    assert_eq!(env.get_value_of(&"p".to_owned()), None);
    assert_eq!(env.get_value_of(&"nowhere".to_owned()), None);
}

fn feed(repl: &mut Repl, line: &str) -> (ReplResult, ReplNotice) {
    repl.read_line(line.to_owned());
    let result = repl.check_input_for_command();
    (result, repl.take_notice())
}

#[test]
fn repl_runs_a_plain_line() {
    let mut repl = Repl::new();
    assert_eq!(feed(&mut repl, "(+ 1 2)"), (ReplResult::KeepExecuting, ReplNotice::Nothing));
    assert_eq!(repl.current_line(), "(+ 1 2)");
    assert_eq!(feed(&mut repl, ""), (ReplResult::BackToStart, ReplNotice::Nothing));
}

#[test]
fn repl_commands() {
    let mut repl = Repl::new();
    assert_eq!(feed(&mut repl, ":help"), (ReplResult::BackToStart, ReplNotice::Help));
    assert_eq!(feed(&mut repl, ":grammer"), (ReplResult::BackToStart, ReplNotice::Grammar));
    assert_eq!(feed(&mut repl, ":nonsense"), (ReplResult::BackToStart, ReplNotice::Nothing));
    assert!(!repl.show_ast() && !repl.show_ir() && !repl.show_x64());
    assert_eq!(feed(&mut repl, ":show-ast"), (ReplResult::BackToStart, ReplNotice::Nothing));
    assert_eq!(feed(&mut repl, ":show-x64"), (ReplResult::BackToStart, ReplNotice::Nothing));
    assert!(repl.show_ast() && !repl.show_ir() && repl.show_x64());
    assert_eq!(feed(&mut repl, ":show-ast"), (ReplResult::BackToStart, ReplNotice::Nothing));
    assert_eq!(feed(&mut repl, ":show-ir"), (ReplResult::BackToStart, ReplNotice::Nothing));
    assert!(!repl.show_ast() && repl.show_ir() && repl.show_x64());
    assert_eq!(feed(&mut repl, ":quit"), (ReplResult::Stop, ReplNotice::Nothing));
    assert_eq!(repl.take_notice(), ReplNotice::Nothing);
}

#[test]
fn repl_gathers_lines_in_multiline_mode() {
    let mut repl = Repl::new();
    assert_eq!(feed(&mut repl, ";;"), (ReplResult::BackToStart, ReplNotice::MultilineOn));
    assert_eq!(feed(&mut repl, "(+ 1"), (ReplResult::BackToStart, ReplNotice::Nothing));
    assert_eq!(feed(&mut repl, " 2)"), (ReplResult::BackToStart, ReplNotice::Nothing));
    assert_eq!(feed(&mut repl, ";;"), (ReplResult::KeepExecuting, ReplNotice::MultilineOff));
    assert_eq!(repl.current_line(), "(+ 1 2);;");
    repl.clear_buffer();
    assert_eq!(feed(&mut repl, "(7)"), (ReplResult::KeepExecuting, ReplNotice::Nothing));
    assert_eq!(repl.current_line(), "(7)");
}

#[test]
fn repl_forgets_an_empty_multiline_input() {
    let mut repl = Repl::new();
    assert_eq!(feed(&mut repl, ";;"), (ReplResult::BackToStart, ReplNotice::MultilineOn));
    assert_eq!(feed(&mut repl, ";;"), (ReplResult::BackToStart, ReplNotice::MultilineOff));
    assert_eq!(repl.current_line(), "");
    assert_eq!(feed(&mut repl, "(1)"), (ReplResult::KeepExecuting, ReplNotice::Nothing));
    repl.clear_input();
    assert_eq!(repl.current_line(), "");
    assert_eq!(repl.handle_repl_command(&"(1)".to_owned()), ReplResult::BackToStart);
}

#[test]
fn repl_starts_with_nothing_to_tell() {
    let mut repl = Repl::new();
    assert_eq!(repl.take_notice(), ReplNotice::Nothing);
    assert_eq!(repl.current_line(), "");
    assert!(!repl.show_ast() && !repl.show_ir() && !repl.show_x64());
}

#[test]
fn insertion_point_is_behind_the_last_name_that_does_not_come_after() {
    assert_eq!(insertion_point(&vec![]), 0);
    assert_eq!(insertion_point(&vec![-1, -1, 1, 1]), 2);
    assert_eq!(insertion_point(&vec![-1, 0, 1]), 2);
    assert_eq!(insertion_point(&vec![1, 1]), 0);
    assert_eq!(insertion_point(&vec![-1, -1]), 2);
    // only the names at the end that come after it are passed
    assert_eq!(insertion_point(&vec![1, -1, 1]), 2);
    assert_eq!(insertion_point(&vec![0, 0, 0]), 3);
}
