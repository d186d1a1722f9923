use jsonquill::document::node::{JsonNode, JsonValue};
use jsonquill::jsonpath::ast::PathSegment;
use jsonquill::jsonpath::evaluator::Evaluator;
use jsonquill::jsonpath::parser::Parser;

#[test]
fn test_parse_root() {
    let result = Parser::parse("$");
    assert!(result.is_ok());
    let path = result.unwrap();
    assert_eq!(path.segments.len(), 1);
    assert_eq!(path.segments[0], PathSegment::Root);
}

#[test]
fn test_parse_child() {
    let result = Parser::parse("$.store");
    assert!(result.is_ok());
    let path = result.unwrap();
    assert_eq!(path.segments.len(), 2);
    assert_eq!(path.segments[0], PathSegment::Root);
    assert_eq!(path.segments[1], PathSegment::Child("store".to_string()));
}

#[test]
fn test_parse_nested_child() {
    let result = Parser::parse("$.store.book");
    assert!(result.is_ok());
    let path = result.unwrap();
    assert_eq!(path.segments.len(), 3);
    assert_eq!(path.segments[2], PathSegment::Child("book".to_string()));
}

#[test]
fn test_parse_array_index() {
    let result = Parser::parse("$.items[0]");
    assert!(result.is_ok());
    let path = result.unwrap();
    assert_eq!(path.segments.len(), 3);
    assert_eq!(path.segments[1], PathSegment::Child("items".to_string()));
    assert_eq!(path.segments[2], PathSegment::Index(0));
}

#[test]
fn test_parse_wildcard() {
    let result = Parser::parse("$.items[*]");
    assert!(result.is_ok());
    let path = result.unwrap();
    assert_eq!(path.segments[2], PathSegment::Wildcard);
}

#[test]
fn test_parse_wildcard_dot() {
    let result = Parser::parse("$.items.*");
    assert!(result.is_ok());
    let path = result.unwrap();
    assert_eq!(path.segments[2], PathSegment::Wildcard);
}

#[test]
fn test_parse_recursive_descent() {
    let result = Parser::parse("$..price");
    assert!(result.is_ok());
    let path = result.unwrap();
    assert_eq!(path.segments.len(), 2);
    assert_eq!(
        path.segments[1],
        PathSegment::RecursiveDescent(Some("price".to_string()))
    );
}

#[test]
fn test_parse_empty_fails() {
    let result = Parser::parse("");
    assert!(result.is_err());
}

#[test]
fn test_parse_missing_root_fails() {
    let result = Parser::parse("store.book");
    assert!(result.is_err());
}

fn make_test_tree() -> JsonNode {
    let items = vec![
        JsonNode::new(JsonValue::String("a".to_string())),
        JsonNode::new(JsonValue::String("b".to_string())),
        JsonNode::new(JsonValue::String("c".to_string())),
    ];

    let obj = vec![
        (
            "name".to_string(),
            JsonNode::new(JsonValue::String("test".to_string())),
        ),
        ("age".to_string(), JsonNode::new(JsonValue::Number("42".to_string()))),
        ("items".to_string(), JsonNode::new(JsonValue::Array(items))),
    ];

    JsonNode::new(JsonValue::Object(obj))
}

#[test]
fn test_evaluate_root() {
    let tree = make_test_tree();
    let evaluator = Evaluator::new(&tree);
    let results = evaluator.evaluate(&[PathSegment::Root]);
    assert_eq!(results.len(), 1);
    assert!(matches!(results[0].value(), JsonValue::Object(_)));
}

#[test]
fn test_evaluate_child() {
    let tree = make_test_tree();
    let evaluator = Evaluator::new(&tree);
    let results =
        evaluator.evaluate(&[PathSegment::Root, PathSegment::Child("name".to_string())]);
    assert_eq!(results.len(), 1);
    assert_eq!(results[0].value(), &JsonValue::String("test".to_string()));
}

#[test]
fn test_evaluate_array_index() {
    let tree = make_test_tree();
    let evaluator = Evaluator::new(&tree);
    let results = evaluator.evaluate(&[
        PathSegment::Root,
        PathSegment::Child("items".to_string()),
        PathSegment::Index(1),
    ]);
    assert_eq!(results.len(), 1);
    assert_eq!(results[0].value(), &JsonValue::String("b".to_string()));
}

#[test]
fn test_evaluate_wildcard() {
    let tree = make_test_tree();
    let evaluator = Evaluator::new(&tree);
    let results = evaluator.evaluate(&[PathSegment::Root, PathSegment::Wildcard]);
    assert_eq!(results.len(), 3); // name, age, items
}

#[test]
fn test_evaluate_recursive_descent() {
    let tree = make_test_tree();
    let evaluator = Evaluator::new(&tree);
    let results = evaluator.evaluate(&[PathSegment::Root, PathSegment::RecursiveDescent(None)]);
    assert!(results.len() > 3); // Should find nodes at all levels
}

#[test]
fn test_evaluate_recursive_descent_with_name() {
    let tree = make_test_tree();
    let evaluator = Evaluator::new(&tree);
    let results = evaluator.evaluate(&[
        PathSegment::Root,
        PathSegment::RecursiveDescent(Some("name".to_string())),
    ]);
    assert_eq!(results.len(), 1);
    assert_eq!(results[0].value(), &JsonValue::String("test".to_string()));
}

#[test]
fn test_evaluate_complex_path() {
    let tree = make_test_tree();
    let evaluator = Evaluator::new(&tree);
    let results = evaluator.evaluate(&[
        PathSegment::Root,
        PathSegment::Child("items".to_string()),
        PathSegment::Index(0),
    ]);
    assert_eq!(results.len(), 1);
    assert_eq!(results[0].value(), &JsonValue::String("a".to_string()));
}

#[test]
fn test_evaluate_negative_index() {
    let tree = make_test_tree();
    let evaluator = Evaluator::new(&tree);
    let results = evaluator.evaluate(&[
        PathSegment::Root,
        PathSegment::Child("items".to_string()),
        PathSegment::Index(-1),
    ]);
    assert_eq!(results.len(), 1);
    assert_eq!(results[0].value(), &JsonValue::String("c".to_string()));
}

#[test]
fn test_evaluate_slice() {
    let tree = make_test_tree();
    let evaluator = Evaluator::new(&tree);
    let results = evaluator.evaluate(&[
        PathSegment::Root,
        PathSegment::Child("items".to_string()),
        PathSegment::Slice(Some(0), Some(2)),
    ]);
    assert_eq!(results.len(), 2);
    assert_eq!(results[0].value(), &JsonValue::String("a".to_string()));
    assert_eq!(results[1].value(), &JsonValue::String("b".to_string()));
}

#[test]
fn test_evaluate_no_match() {
    let tree = make_test_tree();
    let evaluator = Evaluator::new(&tree);
    let results = evaluator.evaluate(&[
        PathSegment::Root,
        PathSegment::Child("nonexistent".to_string()),
    ]);
    assert_eq!(results.len(), 0);
}

#[test]
fn test_evaluate_multi_property() {
    let tree = make_test_tree();
    let evaluator = Evaluator::new(&tree);
    let results = evaluator.evaluate(&[
        PathSegment::Root,
        PathSegment::MultiProperty(vec!["name".to_string(), "age".to_string()]),
    ]);
    assert_eq!(results.len(), 2); // Should find both name and age
                                  // Verify we got the right values
    assert_eq!(results[0].value(), &JsonValue::String("test".to_string()));
    assert_eq!(results[1].value(), &JsonValue::Number("42".to_string()));
}

#[test]
fn test_evaluate_current() {
    let tree = make_test_tree();
    let evaluator = Evaluator::new(&tree);
    // Current returns the same node
    let results = evaluator.evaluate_segment(&tree, &PathSegment::Current);
    assert_eq!(results.len(), 1);
    assert!(matches!(results[0].value(), JsonValue::Object(_)));
}

#[test]
fn parse_bracketed_names_index_and_slice() {
    let path = Parser::parse("$['a', 'b'][-1][1:3]").unwrap();
    assert_eq!(path.segments.len(), 4);
    assert_eq!(path.segments[1], PathSegment::MultiProperty(vec!["a".to_string(), "b".to_string()]));
    assert_eq!(path.segments[2], PathSegment::Index(-1));
    assert_eq!(path.segments[3], PathSegment::Slice(Some(1), Some(3)));
}

#[test]
fn parse_rejects_unclosed_bracket() {
    assert!(Parser::parse("$.items[0").is_err());
    assert!(Parser::parse("$.").is_err());
}

#[test]
fn parsed_query_evaluates_like_its_segments() {
    let tree = make_test_tree();
    let evaluator = Evaluator::new(&tree);
    let path = Parser::parse("$.items[2]").unwrap();
    let results = evaluator.evaluate(&path.segments);
    assert_eq!(results.len(), 1);
    assert_eq!(results[0].value(), &JsonValue::String("c".to_string()));
}

#[test]
fn index_past_the_end_selects_nothing() {
    let tree = make_test_tree();
    let evaluator = Evaluator::new(&tree);
    let results = evaluator.evaluate(&[
        PathSegment::Root,
        PathSegment::Child("items".to_string()),
        PathSegment::Index(3),
    ]);
    assert_eq!(results.len(), 0);
}
