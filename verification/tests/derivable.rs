use funcmap::derivable::Derivable;
use funcmap::map::MapExpr;

#[test]
fn bind_for_standard_returns_expression_unchanged() {
    let bound = Derivable::Standard.bind_expr(MapExpr::Value);

    assert!(matches!(bound, MapExpr::Value));
}

#[test]
fn bind_for_fallible_wraps_expression_with_question_mark() {
    let bound = Derivable::Fallible.bind_expr(MapExpr::Value);

    match bound {
        MapExpr::Try(inner) => assert!(matches!(*inner, MapExpr::Value)),
        other => panic!("unexpected expression {:?}", other),
    }
}

#[test]
fn unit_for_standard_returns_expression_unchanged() {
    let unit = Derivable::Standard.unit_expr(MapExpr::Value);

    assert!(matches!(unit, MapExpr::Value));
}

#[test]
fn unit_for_fallible_wraps_expression_in_ok() {
    let unit = Derivable::Fallible.unit_expr(MapExpr::Value);

    match unit {
        MapExpr::WrapOk(inner) => assert!(matches!(*inner, MapExpr::Value)),
        other => panic!("unexpected expression {:?}", other),
    }
}
