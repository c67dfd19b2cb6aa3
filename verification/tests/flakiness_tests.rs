//! Locating test functions and the random and process calls in them.
use pytest_linter::parser::{collect_random_calls, collect_subprocess_calls_without_timeout, find_function_node, PythonParser};
use pytest_linter::syntax::SyntaxTree;

fn parse(source: &str) -> SyntaxTree {
    PythonParser::new().unwrap().syntax_tree(source).unwrap()
}

#[test]
fn debug_call_has_timeout() {
    let source = r#"import subprocess

def test_subprocess_safe():
    result = subprocess.run(["echo", "hello"], timeout=30)
    assert result.returncode == 0
"#;
    let tree = parse(source);
    let calls = collect_subprocess_calls_without_timeout(&tree, 0);
    assert!(calls.is_empty(), "subprocess.run with timeout=30 is not an unguarded call");
}

#[test]
fn test_find_function_node_finds_top_level() {
    let tree = parse("def test_foo():\n    pass\n");
    let node = find_function_node(&tree, 1);
    assert!(node.is_some(), "should find function on line 1");
}

#[test]
fn test_find_function_node_finds_in_decorated() {
    let tree = parse("@decorator\ndef test_bar():\n    pass\n");
    let node = find_function_node(&tree, 2);
    assert!(node.is_some(), "should find function on line 2 inside decorated_definition");
    assert_eq!(tree.nodes[node.unwrap()].kind, "function_definition");
}

#[test]
fn test_find_function_node_wrong_line_returns_none() {
    let tree = parse("def test_foo():\n    pass\n");
    assert!(find_function_node(&tree, 99).is_none(), "should not find function on wrong line");
}

#[test]
fn test_collect_random_calls_detects_random_module_attribute() {
    let tree = parse("import random\nx = random.unknown_func()\n");
    let lines = collect_random_calls(&tree, 0);
    assert!(!lines.is_empty(), "random.<unknown> should be detected via attribute object check");
}

#[test]
fn test_collect_random_calls_detects_randint() {
    let tree = parse("import random\nx = random.randint(1, 10)\n");
    let lines = collect_random_calls(&tree, 0);
    assert!(!lines.is_empty(), "random.randint should be detected");
    assert_eq!(lines, vec![2]);
}

#[test]
fn test_collect_random_calls_no_false_positive() {
    let tree = parse("x = deterministic_func()\n");
    assert!(collect_random_calls(&tree, 0).is_empty(), "non-random call should not be detected");
}

#[test]
fn test_collect_random_calls_no_false_positive_attribute() {
    let tree = parse("x = math.sqrt(4)\n");
    assert!(
        collect_random_calls(&tree, 0).is_empty(),
        "math.sqrt (non-random attribute) should not be detected as random"
    );
}

#[test]
fn test_collect_subprocess_calls_detects_subprocess_attribute() {
    let tree = parse("import subprocess\nr = subprocess.unknown_func()\n");
    let lines = collect_subprocess_calls_without_timeout(&tree, 0);
    assert!(!lines.is_empty(), "subprocess.<unknown> should be detected via attribute object check");
}

#[test]
fn test_collect_subprocess_calls_detects_run() {
    let tree = parse("import subprocess\nr = subprocess.run(['ls'])\n");
    let lines = collect_subprocess_calls_without_timeout(&tree, 0);
    assert!(!lines.is_empty(), "subprocess.run without timeout should be detected");
}

#[test]
fn test_find_function_node_decorated_wrong_line_returns_none() {
    let tree = parse("@decorator\ndef test_bar():\n    pass\n");
    assert!(find_function_node(&tree, 99).is_none(), "decorated function on wrong line should return None");
}

#[test]
fn test_collect_subprocess_calls_no_false_positive_attribute() {
    let tree = parse("r = os.system('ls')\n");
    assert!(
        collect_subprocess_calls_without_timeout(&tree, 0).is_empty(),
        "os.system (non-subprocess attribute) should not be detected as subprocess"
    );
}

#[test]
fn test_collect_subprocess_calls_no_false_positive() {
    let tree = parse("x = other_func()\n");
    assert!(
        collect_subprocess_calls_without_timeout(&tree, 0).is_empty(),
        "non-subprocess call should not be detected"
    );
}
