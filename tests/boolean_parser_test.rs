use rgrep::boolean_parser::{parse_boolean_expression, BooleanExpr};

#[test]
fn test_simple_pattern() {
    let expr = parse_boolean_expression("hello").unwrap();
    match expr {
        BooleanExpr::Pattern(p) => assert_eq!(p, "hello"),
        _ => panic!("Expected pattern"),
    }
}

#[test]
fn test_and_expression() {
    let expr = parse_boolean_expression("hello&world").unwrap();
    match expr {
        BooleanExpr::And(left, right) => {
            match (left.as_ref(), right.as_ref()) {
                (BooleanExpr::Pattern(l), BooleanExpr::Pattern(r)) => {
                    assert_eq!(l, "hello");
                    assert_eq!(r, "world");
                }
                _ => panic!("Expected pattern nodes"),
            }
        }
        _ => panic!("Expected AND expression"),
    }
}

#[test]
fn test_or_expression() {
    let expr = parse_boolean_expression("hello|world").unwrap();
    match expr {
        BooleanExpr::Or(left, right) => {
            match (left.as_ref(), right.as_ref()) {
                (BooleanExpr::Pattern(l), BooleanExpr::Pattern(r)) => {
                    assert_eq!(l, "hello");
                    assert_eq!(r, "world");
                }
                _ => panic!("Expected pattern nodes"),
            }
        }
        _ => panic!("Expected OR expression"),
    }
}

#[test]
fn test_parentheses() {
    let expr = parse_boolean_expression("hello&(world|foo)").unwrap();
    match expr {
        BooleanExpr::And(left, right) => {
            match left.as_ref() {
                BooleanExpr::Pattern(p) => assert_eq!(p, "hello"),
                _ => panic!("Expected pattern on left"),
            }
            match right.as_ref() {
                BooleanExpr::Or(or_left, or_right) => {
                    match (or_left.as_ref(), or_right.as_ref()) {
                        (BooleanExpr::Pattern(l), BooleanExpr::Pattern(r)) => {
                            assert_eq!(l, "world");
                            assert_eq!(r, "foo");
                        }
                        _ => panic!("Expected pattern nodes in OR"),
                    }
                }
                _ => panic!("Expected OR expression on right"),
            }
        }
        _ => panic!("Expected AND expression"),
    }
}
