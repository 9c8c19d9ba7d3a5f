use wu::types::{Type, TypeMode, TypeNode};

fn modes() -> Vec<TypeMode> {
    vec![TypeMode::Undeclared, TypeMode::Immutable, TypeMode::Optional, TypeMode::Regular]
}

#[test]
fn regular_and_immutable_agree() {
    assert!(TypeMode::Regular == TypeMode::Immutable);
    assert!(TypeMode::Immutable == TypeMode::Regular);
    assert!(TypeMode::Regular == TypeMode::Regular);
    assert!(TypeMode::Immutable == TypeMode::Immutable);
}

#[test]
fn optional_agrees_with_every_mode() {
    for mode in modes() {
        assert!(TypeMode::Optional == mode);
        assert!(mode == TypeMode::Optional);
    }
}

#[test]
fn undeclared_agrees_with_nothing_but_optional() {
    assert!(TypeMode::Undeclared != TypeMode::Undeclared);
    assert!(TypeMode::Undeclared != TypeMode::Regular);
    assert!(TypeMode::Regular != TypeMode::Undeclared);
    assert!(TypeMode::Undeclared != TypeMode::Immutable);
    assert!(TypeMode::Immutable != TypeMode::Undeclared);
    assert!(TypeMode::Undeclared == TypeMode::Optional);
}

#[test]
fn check_is_strict_and_reflexive() {
    for mode in modes() {
        assert!(mode.check(&mode));
    }
    assert!(TypeMode::Undeclared.check(&TypeMode::Undeclared));
    assert!(!TypeMode::Regular.check(&TypeMode::Immutable));
    assert!(!TypeMode::Immutable.check(&TypeMode::Regular));
    assert!(!TypeMode::Optional.check(&TypeMode::Regular));
    assert!(!TypeMode::Undeclared.check(&TypeMode::Optional));
}

#[test]
fn number_widens_to_int_and_float() {
    assert!(TypeNode::Number == TypeNode::Int);
    assert!(TypeNode::Number == TypeNode::Float);
    assert!(TypeNode::Int == TypeNode::Number);
    assert!(TypeNode::Float == TypeNode::Number);
    assert!(TypeNode::Number == TypeNode::Number);
    assert!(TypeNode::Int != TypeNode::Float);
    assert!(TypeNode::Float != TypeNode::Int);
    assert!(Type::number() == Type::integer());
    assert!(Type::float() == Type::number());
    assert!(Type::integer() != Type::float());
}

#[test]
fn number_does_not_widen_to_other_shapes() {
    assert!(TypeNode::Number != TypeNode::Bool);
    assert!(TypeNode::Number != TypeNode::Str);
    assert!(TypeNode::Char != TypeNode::Number);
    assert!(TypeNode::Nil != TypeNode::Number);
    assert!(TypeNode::Number != TypeNode::Id("number".to_string()));
}

#[test]
fn plain_shapes_agree_with_themselves_only() {
    assert!(TypeNode::Bool == TypeNode::Bool);
    assert!(TypeNode::Str == TypeNode::Str);
    assert!(TypeNode::Char == TypeNode::Char);
    assert!(TypeNode::Nil == TypeNode::Nil);
    assert!(TypeNode::Bool != TypeNode::Str);
    assert!(TypeNode::Char != TypeNode::Str);
    assert!(TypeNode::Nil != TypeNode::Int);
}

#[test]
fn names_agree_when_equal() {
    assert!(Type::id("i128") == Type::id("i128"));
    assert!(Type::id("i128") != Type::id("i64"));
    assert!(Type::id("int") != Type::integer());
}

#[test]
fn tuples_agree_element_by_element() {
    let left = TypeNode::Tuple(vec![Type::number(), Type::string()]);
    let right = TypeNode::Tuple(vec![Type::integer(), Type::string()]);
    let shorter = TypeNode::Tuple(vec![Type::integer()]);
    let other = TypeNode::Tuple(vec![Type::integer(), Type::bool()]);
    assert!(left == right);
    assert!(right == left);
    assert!(left != shorter);
    assert!(shorter != left);
    assert!(left != other);
    assert!(TypeNode::Tuple(vec![]) == TypeNode::Tuple(vec![]));
    assert!(TypeNode::Tuple(vec![]) != TypeNode::Nil);
}

#[test]
fn types_compare_shape_and_mode() {
    let constant = Type::new(TypeNode::Int, TypeMode::Immutable);
    let undeclared = Type::new(TypeNode::Int, TypeMode::Undeclared);
    let optional = Type::new(TypeNode::Int, TypeMode::Optional);
    assert!(Type::integer() == constant);
    assert!(constant == Type::number());
    assert!(undeclared != Type::integer());
    assert!(undeclared != undeclared.clone());
    assert!(optional == undeclared);
    assert!(optional != Type::bool());
}

#[test]
fn constructors_give_regular_types() {
    for t in [
        Type::number(),
        Type::integer(),
        Type::float(),
        Type::string(),
        Type::char(),
        Type::bool(),
        Type::nil(),
        Type::id("point"),
    ] {
        assert!(t.mode.check(&TypeMode::Regular));
    }
    assert!(matches!(Type::nil().node, TypeNode::Nil));
    assert!(matches!(Type::id("point").node, TypeNode::Id(ref name) if name == "point"));
}

#[test]
fn types_are_written_out() {
    assert_eq!(Type::number().to_string(), "number");
    assert_eq!(Type::integer().to_string(), "int");
    assert_eq!(Type::float().to_string(), "float");
    assert_eq!(Type::bool().to_string(), "bool");
    assert_eq!(Type::string().to_string(), "string");
    assert_eq!(Type::char().to_string(), "char");
    assert_eq!(Type::nil().to_string(), "nil");
    assert_eq!(Type::id("i128").to_string(), "i128");
    assert_eq!(Type::new(TypeNode::Int, TypeMode::Immutable).to_string(), "constant int");
    assert_eq!(Type::new(TypeNode::Int, TypeMode::Undeclared).to_string(), "undeclared int");
    assert_eq!(Type::new(TypeNode::Int, TypeMode::Optional).to_string(), "optional int");
    let pair = TypeNode::Tuple(vec![
        Type::integer(),
        Type::new(TypeNode::Str, TypeMode::Immutable),
    ]);
    assert_eq!(pair.to_string(), "(int,constant string,)");
    assert_eq!(TypeNode::Tuple(vec![]).to_string(), "()");
}

#[test]
fn clone_keeps_shape_and_mode() {
    let nested = Type::new(
        TypeNode::Tuple(vec![Type::id("a"), Type::new(TypeNode::Tuple(vec![Type::char()]), TypeMode::Optional)]),
        TypeMode::Immutable,
    );
    assert_eq!(nested.clone().to_string(), "constant (a,optional (char,),)");
}
