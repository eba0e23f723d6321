use edn_reader::read_edn;
use edn_reader::BasicElement;
use edn_reader::BasicSet;
use edn_reader::Edn;

#[test]
fn ignore_leading_delimiters() {
    assert_eq!(read_edn(" \n\t\r,nil"), Ok(Edn::Basic(BasicElement::Nil)));
}

#[test]
fn parses_nil() {
    let result = read_edn("nil");
    assert_eq!(result, Ok(Edn::Basic(BasicElement::Nil)));
}

#[test]
fn failed_parse_nil() {
    let result = read_edn("not_nil");
    assert!(result.is_err());
}

#[test]
fn parses_true() {
    let result = read_edn("true");
    assert_eq!(result, Ok(Edn::Basic(BasicElement::Boolean(true))));
}

#[test]
fn parses_false() {
    let result = read_edn("false");
    assert_eq!(result, Ok(Edn::Basic(BasicElement::Boolean(false))));
}

#[test]
fn parse_zero_int() {
    assert_eq!(read_edn("0"), Ok(Edn::Basic(BasicElement::Integer(0))));
}

#[test]
fn parse_max_64_bit_signed_int() {
    assert_eq!(
        read_edn("9223372036854775807"),
        Ok(Edn::Basic(BasicElement::Integer(9223372036854775807)))
    );
}

#[test]
fn parse_overflowed_int_is_failure() {
    assert!(read_edn("9223372036854775808").is_err());
    assert!(read_edn("99999999999999999999999").is_err());
}

#[test]
fn parse_special_characters() {
    assert_eq!(
        read_edn(r"\return"),
        Ok(Edn::Basic(BasicElement::Character('\r')))
    );
    assert_eq!(
        read_edn(r"\newline"),
        Ok(Edn::Basic(BasicElement::Character('\n')))
    );
    assert_eq!(
        read_edn(r"\space"),
        Ok(Edn::Basic(BasicElement::Character(' ')))
    );
    assert_eq!(
        read_edn(r"\tab"),
        Ok(Edn::Basic(BasicElement::Character('\t')))
    );
}

#[test]
fn parse_u_character() {
    assert_eq!(read_edn(r"\u"), Ok(Edn::Basic(BasicElement::Character('u'))));
}

#[test]
fn parse_escaped_unicode_character() {
    assert_eq!(
        read_edn(r"\u1234"),
        Ok(Edn::Basic(BasicElement::Character('\u{1234}')))
    );
}

#[test]
fn parse_unicode_letter_hex_digits() {
    assert_eq!(
        read_edn(r"\ubeef"),
        Ok(Edn::Basic(BasicElement::Character('\u{BEEF}')))
    );
    assert_eq!(
        read_edn(r"\uBEEF"),
        Ok(Edn::Basic(BasicElement::Character('\u{BEEF}')))
    );
    assert_eq!(
        read_edn(r"\u0041"),
        Ok(Edn::Basic(BasicElement::Character('A')))
    );
}

#[test]
fn parse_surrogate_escape_is_failure() {
    assert!(read_edn(r"\uD800").is_err());
    assert!(read_edn(r"\u110000").is_err());
}

#[test]
fn parse_literal_escaped_character() {
    assert_eq!(read_edn(r"\("), Ok(Edn::Basic(BasicElement::Character('('))));
    assert_eq!(read_edn(r"\\"), Ok(Edn::Basic(BasicElement::Character('\\'))));
}

#[test]
fn incomplete_named_escape_is_failure() {
    assert!(read_edn(r"\r").is_err());
    assert!(read_edn(r"\ret").is_err());
    assert!(read_edn(r"\newt").is_err());
}

#[test]
fn parse_single_element_list() {
    let list = vec![Edn::Basic(BasicElement::Nil)];
    assert_eq!(read_edn("(nil)"), Ok(Edn::List(list)));
}

#[test]
fn parse_empty_list() {
    assert_eq!(read_edn("()"), Ok(Edn::List(Vec::new())));
}

#[test]
fn parse_nested_lists() {
    let empty = Edn::List(Vec::new());

    let false_list = vec![Edn::Basic(BasicElement::Boolean(false))];

    let one_and_false_list = vec![
        Edn::Basic(BasicElement::Integer(1)),
        Edn::List(false_list),
    ];

    let outer_list = vec![empty, Edn::List(one_and_false_list)];

    assert_eq!(read_edn("(() (1 (false)))"), Ok(Edn::List(outer_list)));
}

#[test]
fn parse_single_element_vector() {
    assert_eq!(
        read_edn("[nil]"),
        Ok(Edn::Vector(vec![Edn::Basic(BasicElement::Nil)]))
    );
}

#[test]
fn parse_empty_vector() {
    assert_eq!(read_edn("[]"), Ok(Edn::Vector(vec![])));
}

#[test]
fn parse_three_element_vector() {
    assert_eq!(
        read_edn("[nil nil nil]"),
        Ok(Edn::Vector(vec![
            Edn::Basic(BasicElement::Nil),
            Edn::Basic(BasicElement::Nil),
            Edn::Basic(BasicElement::Nil),
        ]))
    );
}

#[test]
fn parse_nested_vectors() {
    assert_eq!(
        read_edn("[[] [1 [false]]]"),
        Ok(Edn::Vector(vec![
            Edn::Vector(vec![]),
            Edn::Vector(vec![
                Edn::Basic(BasicElement::Integer(1)),
                Edn::Vector(vec![Edn::Basic(BasicElement::Boolean(false))]),
            ]),
        ]))
    );
}

#[test]
fn parse_empty_map() {
    assert_eq!(
        read_edn("{}"),
        Ok(Edn::EMap(BasicSet { elements: vec![] }))
    );
}

#[test]
fn parse_simple_map() {
    assert_eq!(
        read_edn("{1 2 3 4}"),
        Ok(Edn::EMap(BasicSet {
            elements: vec![
                (
                    Edn::Basic(BasicElement::Integer(3)),
                    Edn::Basic(BasicElement::Integer(4)),
                ),
                (
                    Edn::Basic(BasicElement::Integer(1)),
                    Edn::Basic(BasicElement::Integer(2)),
                ),
            ],
        }))
    );
}

#[test]
fn map_order_insensitive() {
    assert_eq!(read_edn("{1 2 3 4}"), read_edn("{3 4 1 2}"));
    assert_eq!(read_edn("{1 2, 3 4}"), read_edn("{3 4 1 2}"));
}

#[test]
fn map_duplicates_not_collapsed() {
    assert!(read_edn("{1 2 1 2}") != read_edn("{1 2}"));
    assert_eq!(
        read_edn("{1 2 1 2}"),
        Ok(Edn::EMap(BasicSet {
            elements: vec![
                (
                    Edn::Basic(BasicElement::Integer(1)),
                    Edn::Basic(BasicElement::Integer(2)),
                ),
                (
                    Edn::Basic(BasicElement::Integer(1)),
                    Edn::Basic(BasicElement::Integer(2)),
                ),
            ],
        }))
    );
}

#[test]
fn map_missing_value_is_failure() {
    assert!(read_edn("{1}").is_err());
    assert!(read_edn("{1 2 3}").is_err());
}

#[test]
fn parse_empty_set() {
    assert_eq!(read_edn("#{}"), Ok(Edn::ESet(BasicSet { elements: vec![] })));
}

#[test]
fn parse_mixed_set() {
    assert_eq!(
        read_edn("#{1 [2 3] #{4}}"),
        Ok(Edn::ESet(BasicSet {
            elements: vec![
                Edn::ESet(BasicSet {
                    elements: vec![Edn::Basic(BasicElement::Integer(4))],
                }),
                Edn::Basic(BasicElement::Integer(1)),
                Edn::Vector(vec![
                    Edn::Basic(BasicElement::Integer(2)),
                    Edn::Basic(BasicElement::Integer(3)),
                ]),
            ],
        }))
    );
}

#[test]
fn set_order_insensitive() {
    assert_eq!(read_edn("#{1 [2 3] #{4}}"), read_edn("#{#{4} 1 [2 3]}"));
    assert_eq!(read_edn("#{1 [2 3] #{4}}"), read_edn("#{[2 3] #{4} 1}"));
}

#[test]
fn unclosed_containers_are_failures() {
    assert!(read_edn("(").is_err());
    assert!(read_edn("(nil").is_err());
    assert!(read_edn("[1 2").is_err());
    assert!(read_edn("{1 2").is_err());
    assert!(read_edn("#{1").is_err());
    assert!(read_edn("#x").is_err());
}

#[test]
fn separators_required_between_elements() {
    assert_eq!(
        read_edn("(nil,nil)"),
        Ok(Edn::List(vec![
            Edn::Basic(BasicElement::Nil),
            Edn::Basic(BasicElement::Nil),
        ]))
    );
    assert!(read_edn("(nil )").is_err());
}

#[test]
fn trailing_input_is_ignored() {
    assert_eq!(read_edn("nil garbage"), Ok(Edn::Basic(BasicElement::Nil)));
    assert_eq!(read_edn("7x"), Ok(Edn::Basic(BasicElement::Integer(7))));
}

#[test]
fn empty_input_is_failure() {
    assert!(read_edn("").is_err());
    assert!(read_edn("   ,, \t").is_err());
}

#[test]
fn ordered_choice_commits_on_first_character() {
    assert_eq!(
        read_edn("falsey"),
        Ok(Edn::Basic(BasicElement::Boolean(false)))
    );
    assert_eq!(read_edn("nilx"), Ok(Edn::Basic(BasicElement::Nil)));
    assert!(read_edn("tru").is_err());
    assert!(read_edn("nix").is_err());
}
