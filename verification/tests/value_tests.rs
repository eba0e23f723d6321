use edn_reader::BasicElement;
use edn_reader::BasicSet;
use edn_reader::Edn;

#[test]
fn build_nested_heterogeneous_vector() {
    Edn::Vector(vec![
        Edn::Vector(vec![
            Edn::Basic(BasicElement::Integer(1)),
            Edn::Basic(BasicElement::Integer(2)),
            Edn::Basic(BasicElement::Character('c')),
        ]),
        Edn::Basic(BasicElement::Boolean(true)),
        Edn::Vector(vec![
            Edn::Basic(BasicElement::Keyword(":test".to_string())),
            Edn::Basic(BasicElement::Boolean(false)),
        ]),
    ]);
}

#[test]
fn nil_equals_nil() {
    assert_eq!(BasicElement::Nil, BasicElement::Nil)
}

#[test]
fn bool_equality() {
    assert_eq!(BasicElement::Boolean(true), BasicElement::Boolean(true));
    assert_eq!(BasicElement::Boolean(false), BasicElement::Boolean(false));
    assert!(BasicElement::Boolean(false) != BasicElement::Boolean(true));
    assert!(BasicElement::Boolean(true) != BasicElement::Boolean(false));
}

#[test]
fn string_equality() {
    assert_eq!(
        BasicElement::EString("abc".to_string()),
        BasicElement::EString("abc".to_string())
    );
    assert!(
        BasicElement::EString("abc".to_string()) != BasicElement::EString("ABC".to_string())
    );
}

#[test]
fn character_equality() {
    assert_eq!(BasicElement::Character('x'), BasicElement::Character('x'));
    assert!(BasicElement::Character('x') != BasicElement::Character('y'));
}

#[test]
fn symbol_equality() {
    assert_eq!(
        BasicElement::Symbol("+".to_string()),
        BasicElement::Symbol("+".to_string())
    );
    assert!(
        BasicElement::Symbol("+".to_string()) != BasicElement::Symbol("math/add".to_string())
    );
}

#[test]
fn keyword_equality() {
    assert_eq!(
        BasicElement::Keyword(":bob".to_string()),
        BasicElement::Keyword(":bob".to_string())
    );
    assert!(
        BasicElement::Keyword(":bob".to_string()) != BasicElement::Keyword(":alice".to_string())
    );
}

#[test]
fn integer_equality() {
    assert_eq!(BasicElement::Integer(1), BasicElement::Integer(1));
    assert_eq!(BasicElement::Integer(-1), BasicElement::Integer(-1));
    assert_eq!(BasicElement::Integer(0), BasicElement::Integer(-0));
    assert!(BasicElement::Integer(0) != BasicElement::Integer(1));
}

#[test]
fn empty_list_equals_empty_list() {
    assert_eq!(Edn::List(Vec::new()), Edn::List(Vec::new()));
}

#[test]
fn list_123_equals_list_123() {
    let mut x = Vec::new();
    x.push(Edn::Basic(BasicElement::Integer(1)));
    x.push(Edn::Basic(BasicElement::Integer(2)));
    x.push(Edn::Basic(BasicElement::Integer(3)));

    let mut y = Vec::new();
    y.push(Edn::Basic(BasicElement::Integer(1)));
    y.push(Edn::Basic(BasicElement::Integer(2)));
    y.push(Edn::Basic(BasicElement::Integer(3)));

    assert_eq!(Edn::List(x), Edn::List(y));
}

#[test]
fn vec_123_equals_vec_123() {
    let x = vec![
        Edn::Basic(BasicElement::Integer(1)),
        Edn::Basic(BasicElement::Integer(2)),
        Edn::Basic(BasicElement::Integer(3)),
    ];
    let y = vec![
        Edn::Basic(BasicElement::Integer(1)),
        Edn::Basic(BasicElement::Integer(2)),
        Edn::Basic(BasicElement::Integer(3)),
    ];
    assert_eq!(Edn::Vector(x), Edn::Vector(y));
}

#[test]
fn map_12_ab_equals_map_ab_12() {
    let x = BasicSet {
        elements: vec![
            (
                Edn::Basic(BasicElement::Integer(1)),
                Edn::Basic(BasicElement::Integer(2)),
            ),
            (
                Edn::Basic(BasicElement::Character('a')),
                Edn::Basic(BasicElement::Character('b')),
            ),
        ],
    };
    let y = BasicSet {
        elements: vec![
            (
                Edn::Basic(BasicElement::Character('a')),
                Edn::Basic(BasicElement::Character('b')),
            ),
            (
                Edn::Basic(BasicElement::Integer(1)),
                Edn::Basic(BasicElement::Integer(2)),
            ),
        ],
    };
    assert_eq!(Edn::EMap(x), Edn::EMap(y));
}

#[test]
fn set_123_equals_set_321() {
    let x = BasicSet {
        elements: vec![
            Edn::Basic(BasicElement::Integer(1)),
            Edn::Basic(BasicElement::Integer(2)),
            Edn::Basic(BasicElement::Integer(3)),
        ],
    };
    let y = BasicSet {
        elements: vec![
            Edn::Basic(BasicElement::Integer(1)),
            Edn::Basic(BasicElement::Integer(2)),
            Edn::Basic(BasicElement::Integer(3)),
        ],
    };
    assert_eq!(Edn::ESet(x), Edn::ESet(y));
}

#[test]
fn set_reversed_elements_equal() {
    let x = BasicSet {
        elements: vec![
            Edn::Basic(BasicElement::Integer(1)),
            Edn::Basic(BasicElement::Integer(2)),
            Edn::Basic(BasicElement::Integer(3)),
        ],
    };
    let y = BasicSet {
        elements: vec![
            Edn::Basic(BasicElement::Integer(3)),
            Edn::Basic(BasicElement::Integer(2)),
            Edn::Basic(BasicElement::Integer(1)),
        ],
    };
    assert_eq!(Edn::ESet(x), Edn::ESet(y));
}

#[test]
fn sets_of_different_multiplicity_unequal() {
    let one_one_two = BasicSet {
        elements: vec![
            Edn::Basic(BasicElement::Integer(1)),
            Edn::Basic(BasicElement::Integer(1)),
            Edn::Basic(BasicElement::Integer(2)),
        ],
    };
    let one_two_two = BasicSet {
        elements: vec![
            Edn::Basic(BasicElement::Integer(1)),
            Edn::Basic(BasicElement::Integer(2)),
            Edn::Basic(BasicElement::Integer(2)),
        ],
    };
    assert!(Edn::ESet(one_one_two) != Edn::ESet(one_two_two));
}

#[test]
fn set_sizes_differ_unequal() {
    let twice = BasicSet {
        elements: vec![
            Edn::Basic(BasicElement::Integer(1)),
            Edn::Basic(BasicElement::Integer(1)),
        ],
    };
    let once = BasicSet {
        elements: vec![Edn::Basic(BasicElement::Integer(1))],
    };
    assert!(Edn::ESet(twice) != Edn::ESet(once));
}

#[test]
fn mixed_kinds_unequal() {
    assert!(Edn::List(Vec::new()) != Edn::Vector(Vec::new()));
    assert!(
        Edn::Basic(BasicElement::Integer(0)) != Edn::Basic(BasicElement::Boolean(false))
    );
}
