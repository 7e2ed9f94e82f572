use oi_explainer::branches::quantum_collapse;
use oi_explainer::explain;
use oi_explainer::filter::{filter_flow_tree, filter_node, str_starts_with};
use oi_explainer::model::{
    CodeAnalysis, DbQueryEvent, ExecutionDetails, FlowCallNode, FlowTree, MethodDetails,
    ThreadInfo,
};
use oi_explainer::narrative::{generate_steps, generate_summary, u64_to_string};
use oi_explainer::spiral::{generate_spiral_points, method_label};

fn node(class_name: &str, method_name: &str, start: u64, end: u64) -> FlowCallNode {
    FlowCallNode {
        method_details: MethodDetails {
            class_name: class_name.to_string(),
            method_name: method_name.to_string(),
            method_signature: "()V".to_string(),
            parameters: Vec::new(),
        },
        execution_details: ExecutionDetails {
            start_nanos: start,
            end_nanos: end,
            thread_info: ThreadInfo {
                thread_id: 1,
                thread_name: "main".to_string(),
                is_virtual: false,
            },
        },
        code_analysis: CodeAnalysis {
            instruction_count: 10,
            max_local_variables: 2,
            conditional_branches: Vec::new(),
        },
        children: Vec::new(),
        db_events: Vec::new(),
        return_value: None,
        exception: None,
        branches_taken: Vec::new(),
        loops_entered: Vec::new(),
    }
}

fn tree(root: FlowCallNode) -> FlowTree {
    FlowTree {
        trace_id: "t-1".to_string(),
        start_nanos: root.execution_details.start_nanos,
        end_nanos: root.execution_details.end_nanos,
        root_node: root,
    }
}

fn springframework_prefixes() -> Vec<String> {
    vec!["org.springframework".to_string()]
}

#[test]
fn test_str_starts_with() {
    assert!(str_starts_with("org.springframework.web.Dispatcher", "org.springframework"));
    assert!(str_starts_with("org.springframework", "org.springframework"));
    assert!(!str_starts_with("org.spring", "org.springframework"));
    assert!(!str_starts_with("com.mycompany.Service", "org.springframework"));
    assert!(str_starts_with("anything", ""));
}

#[test]
fn test_filter_drops_excluded_subtree() {
    let mut framework_child = node("org.springframework.web.servlet.DispatcherServlet", "doDispatch", 0, 10);
    framework_child.children.push(node("com.mycompany.Hidden", "inner", 0, 5));
    let kept_child = node("com.mycompany.Service", "validate", 0, 20);
    let mut root = node("com.mycompany.Controller", "handle", 0, 100);
    root.children.push(framework_child);
    root.children.push(kept_child);
    let t = tree(root);

    let filtered = filter_flow_tree(&t, &springframework_prefixes());
    assert_eq!(filtered.trace_id, "t-1");
    assert_eq!(filtered.root_node.children.len(), 1);
    assert_eq!(filtered.root_node.children[0].method_details.class_name, "com.mycompany.Service");
    // the input tree is untouched
    assert_eq!(t.root_node.children.len(), 2);
}

#[test]
fn test_filter_root_is_exempt() {
    let root = node("org.springframework.boot.Runner", "run", 0, 10);
    let filtered = filter_node(&root, &springframework_prefixes());
    assert_eq!(filtered.method_details.class_name, "org.springframework.boot.Runner");
}

#[test]
fn test_filter_exact_name_match_is_excluded() {
    let mut root = node("com.mycompany.Controller", "handle", 0, 100);
    root.children.push(node("org.springframework", "exactly", 0, 10));
    let filtered = filter_node(&root, &springframework_prefixes());
    assert_eq!(filtered.children.len(), 0);
}

#[test]
fn test_filter_empty_prefix_list_copies_tree() {
    let mut root = node("com.mycompany.Controller", "handle", 0, 100);
    root.children.push(node("com.mycompany.Service", "validate", 5, 25));
    let no_prefixes: Vec<String> = Vec::new();
    let filtered = filter_node(&root, &no_prefixes);
    assert_eq!(filtered, root);
}

#[test]
fn test_filter_idempotence() {
    let mut root = node("com.mycompany.Controller", "handle", 0, 100);
    root.children.push(node("org.springframework.A", "a", 0, 1));
    let mut kept = node("com.mycompany.Service", "validate", 0, 20);
    kept.children.push(node("org.springframework.B", "b", 0, 1));
    kept.children.push(node("com.mycompany.Repo", "find", 0, 2));
    root.children.push(kept);
    let prefixes = springframework_prefixes();

    let once = filter_node(&root, &prefixes);
    let twice = filter_node(&once, &prefixes);
    assert_eq!(once, twice);
}

fn assert_no_excluded_below(n: &FlowCallNode, prefixes: &[String]) {
    for child in &n.children {
        for p in prefixes {
            assert!(!child.method_details.class_name.starts_with(p));
        }
        assert_no_excluded_below(child, prefixes);
    }
}

#[test]
fn test_filter_exclusion_property() {
    let mut root = node("org.springframework.Root", "root", 0, 100);
    root.children.push(node("org.springframework.A", "a", 0, 1));
    let mut kept = node("com.mycompany.Service", "validate", 0, 20);
    kept.children.push(node("org.springframework.deep.C", "c", 0, 1));
    root.children.push(kept);
    let prefixes = springframework_prefixes();

    let filtered = filter_node(&root, &prefixes);
    assert_no_excluded_below(&filtered, &prefixes);
}

#[test]
fn test_probability_normalization() {
    let mut root = node("com.mycompany.Controller", "handle", 0, 100);
    root.code_analysis.conditional_branches =
        vec!["if(a)".to_string(), "if(b)".to_string(), "if(a)".to_string()];
    root.branches_taken = vec!["if(a)".to_string(), "loop-guard".to_string()];
    let mut child = node("com.mycompany.Service", "validate", 0, 20);
    child.branches_taken = vec!["if(b)".to_string()];
    root.children.push(child);
    let t = tree(root);

    let probabilities = quantum_collapse(&t);
    assert!(!probabilities.is_empty());
    let total = probabilities[0].total;
    assert_eq!(total, 6);
    let count_sum: u64 = probabilities.iter().map(|b| b.count).sum();
    assert_eq!(count_sum, total);
    let p_sum: f64 = probabilities.iter().map(|b| b.count as f64 / b.total as f64).sum();
    assert!((p_sum - 1.0).abs() < 1e-9);

    // the same identifier is counted from both sources, without deduplication
    let a = probabilities.iter().find(|b| b.branch == "if(a)").unwrap();
    assert_eq!(a.count, 3);
    let b = probabilities.iter().find(|b| b.branch == "if(b)").unwrap();
    assert_eq!(b.count, 2);
}

#[test]
fn test_probability_empty_for_branchless_tree() {
    let t = tree(node("com.mycompany.Controller", "handle", 0, 100));
    let probabilities = quantum_collapse(&t);
    assert!(probabilities.is_empty());
}

#[test]
fn test_step_count_and_ordering() {
    let mut root = node("com.mycompany.Controller", "handle", 0, 3_000_000);
    root.db_events.push(DbQueryEvent {
        sql: "SELECT 1".to_string(),
        duration_nanos: 100,
        row_count: 1,
    });
    let mut first = node("com.mycompany.Service", "validate", 0, 1_000_000);
    first.db_events.push(DbQueryEvent {
        sql: "SELECT 2".to_string(),
        duration_nanos: 200,
        row_count: 1,
    });
    first.children.push(node("com.mycompany.Repo", "find", 0, 500_000));
    root.children.push(first);
    root.children.push(node("com.mycompany.Mailer", "send", 0, 2_000_000));

    // 4 nodes + 2 DB events
    let mut counter: usize = 1;
    let steps = generate_steps(&root, &mut counter);
    assert_eq!(steps.len(), 4 + 2);
    assert_eq!(counter, 7);
    for (i, s) in steps.iter().enumerate() {
        assert_eq!(s.step, i + 1);
    }
    assert!(steps[0].description.contains("`handle`"));
    assert!(steps[1].description.contains("DB query"));
    assert!(steps[2].description.contains("`validate`"));
    assert!(steps[3].description.contains("DB query"));
    assert!(steps[4].description.contains("`find`"));
    assert!(steps[5].description.contains("`send`"));
}

#[test]
fn test_duration_truncation() {
    let exactly_one_ms = node("com.mycompany.A", "a", 0, 1_000_000);
    let summary = generate_summary(&exactly_one_ms);
    assert!(summary.contains("It took 1 ms"));

    let just_under_two_ms = node("com.mycompany.A", "a", 0, 1_999_999);
    let summary = generate_summary(&just_under_two_ms);
    assert!(summary.contains("It took 1 ms"));

    let sub_millisecond = node("com.mycompany.A", "a", 0, 999_999);
    let summary = generate_summary(&sub_millisecond);
    assert!(summary.contains("It took 0 ms"));
}

#[test]
fn test_u64_to_string() {
    assert_eq!(u64_to_string(0), "0");
    assert_eq!(u64_to_string(7), "7");
    assert_eq!(u64_to_string(10), "10");
    assert_eq!(u64_to_string(1234567890), "1234567890");
    assert_eq!(u64_to_string(u64::MAX), "18446744073709551615");
}

#[test]
fn test_method_label() {
    assert_eq!(method_label("com.mycompany.HelloController.hello"), "hello");
    assert_eq!(method_label("hello"), "hello");
    assert_eq!(method_label("trailing."), "");
    assert_eq!(method_label(""), "");
}

#[test]
fn test_spiral_points_layout() {
    let mut root = node("com.mycompany.Controller", "handle", 0, 100);
    let mut first = node("com.mycompany.Service", "validate", 0, 20);
    first.children.push(node("com.mycompany.Repo", "find", 0, 10));
    root.children.push(first);
    root.children.push(node("com.mycompany.Mailer", "send", 0, 30));

    let points = generate_spiral_points(&root, 0, 0);
    assert_eq!(points.len(), 4);
    // pre-order: root, first child subtree, then second child
    assert_eq!(points[0].method, "handle");
    assert_eq!((points[0].angle_halves, points[0].depth), (0, 0));
    assert_eq!(points[1].method, "validate");
    assert_eq!((points[1].angle_halves, points[1].depth), (0, 1));
    assert_eq!(points[2].method, "find");
    assert_eq!((points[2].angle_halves, points[2].depth), (0, 2));
    assert_eq!(points[3].method, "send");
    assert_eq!((points[3].angle_halves, points[3].depth), (1, 1));
}

#[test]
fn test_root_only_trace() {
    let t = tree(node("com.mycompany.HelloController", "hello", 0, 1_000_000));
    let response = explain(&t, &springframework_prefixes());
    assert!(response.summary.ends_with("completed successfully."));
    assert_eq!(response.steps.len(), 1);
    assert!(response.branch_probabilities.is_empty());
}

#[test]
fn test_excluded_only_child() {
    let mut root = node("com.mycompany.Controller", "handle", 0, 1_000_000);
    root.children.push(node("org.springframework.web.servlet.DispatcherServlet", "doDispatch", 100_000, 900_000));
    let t = tree(root);
    let response = explain(&t, &springframework_prefixes());
    assert_eq!(response.steps.len(), 1);
    assert_eq!(response.spiral_points.len(), 1);
}

#[test]
fn test_long_sql_is_truncated_to_80_chars() {
    let long_sql = "SELECT a, b, c, d, e, f, g, h, i, j FROM a_table_with_a_really_long_name WHERE a = 1 AND b = 2".to_string();
    assert!(long_sql.chars().count() > 80);
    let expected_prefix: String = long_sql.chars().take(80).collect();

    let mut root = node("com.mycompany.Repository", "findById", 0, 500_000);
    root.db_events.push(DbQueryEvent { sql: long_sql, duration_nanos: 300_000, row_count: 12 });
    let t = tree(root);

    let response = explain(&t, &springframework_prefixes());
    assert_eq!(response.steps.len(), 2);
    let db_step = &response.steps[1].description;
    let expected = format!("  └─ DB query took 0 ms. SQL: `{}...`", expected_prefix);
    assert_eq!(db_step, &expected);
}

#[test]
fn test_short_sql_is_kept_whole() {
    let mut root = node("com.mycompany.Repository", "findById", 0, 500_000);
    root.db_events.push(DbQueryEvent {
        sql: "SELECT * FROM users WHERE id = ?".to_string(),
        duration_nanos: 300_000,
        row_count: 12,
    });
    let mut counter: usize = 1;
    let steps = generate_steps(&root, &mut counter);
    assert_eq!(
        steps[1].description,
        "  └─ DB query took 0 ms. SQL: `SELECT * FROM users WHERE id = ?...`"
    );
}

#[test]
fn test_exception_marks_summary_failed() {
    let mut root = node("com.mycompany.Service", "processData", 0, 100_000);
    root.exception = Some(
        "{\"type\":\"java.lang.IllegalArgumentException\",\"message\":\"Invalid data format\"}"
            .to_string(),
    );
    let t = tree(root);
    let response = explain(&t, &springframework_prefixes());
    assert!(response.summary.contains("failed"));
    assert!(!response.summary.contains("completed successfully"));
}

#[test]
fn test_summary_exact_text() {
    let mut root = node("com.mycompany.HelloController", "hello", 0, 1_000_000);
    root.return_value = Some("\"Hello, World!\"".to_string());
    let summary = generate_summary(&root);
    assert_eq!(
        summary,
        "The request was handled by the entry point `hello` in class \
         `com.mycompany.HelloController`. It took 1 ms and completed successfully."
    );
}

#[test]
fn test_explain_nested_calls() {
    let mut root = node("com.mycompany.Controller", "process", 0, 2_000_000);
    root.code_analysis.conditional_branches = vec!["if(condition)".to_string()];
    root.children.push(node("com.mycompany.Service", "validate", 500_000, 1_500_000));
    let t = tree(root);

    let response = explain(&t, &springframework_prefixes());
    assert_eq!(response.steps.len(), 2);
    assert_eq!(response.steps[0].step, 1);
    assert_eq!(response.steps[1].step, 2);
    assert_eq!(
        response.steps[1].description,
        "Call to `validate` on thread `main` took 1 ms."
    );
    assert_eq!(response.branch_probabilities.len(), 1);
    assert_eq!(response.branch_probabilities[0].branch, "if(condition)");
    assert_eq!(response.branch_probabilities[0].count, 1);
    assert_eq!(response.branch_probabilities[0].total, 1);
    assert_eq!(response.spiral_points.len(), 2);
}
