use browser_core::css::parser::{expand_shorthand, parse_declarations, parse_rule, parse_stylesheet};
use browser_core::css::properties::PropertyId;

#[test]
fn test_parse_simple_stylesheet() {
    let css = r#"
            body {
                background-color: white;
                color: black;
            }
            .container {
                margin: 10px 20px;
                padding: 5px;
            }
        "#;

    let rules = parse_stylesheet(css);
    assert_eq!(rules.len(), 2);
}

#[test]
fn test_parse_multiple_selectors() {
    let css = "h1, h2, h3 { font-weight: bold; }";
    let rules = parse_stylesheet(css);
    assert_eq!(rules.len(), 1);
    assert_eq!(rules[0].selectors.len(), 3);
}

fn pairs(property: PropertyId, value: &str) -> Vec<(PropertyId, String)> {
    expand_shorthand(property, value)
}

#[test]
fn margin_with_two_values_is_vertical_then_horizontal() {
    let got = pairs(PropertyId::Margin, "10px 20px");
    assert_eq!(
        got,
        vec![
            (PropertyId::MarginTop, "10px".to_string()),
            (PropertyId::MarginRight, "20px".to_string()),
            (PropertyId::MarginBottom, "10px".to_string()),
            (PropertyId::MarginLeft, "20px".to_string()),
        ]
    );
}

#[test]
fn padding_with_three_values() {
    let got = pairs(PropertyId::Padding, "1px 2px 3px");
    assert_eq!(
        got,
        vec![
            (PropertyId::PaddingTop, "1px".to_string()),
            (PropertyId::PaddingRight, "2px".to_string()),
            (PropertyId::PaddingBottom, "3px".to_string()),
            (PropertyId::PaddingLeft, "2px".to_string()),
        ]
    );
}

#[test]
fn margin_with_one_and_four_values() {
    let one = pairs(PropertyId::Margin, "8px");
    assert_eq!(one.len(), 4);
    assert!(one.iter().all(|(_, v)| v == "8px"));
    let four = pairs(PropertyId::Margin, "1 2 3 4");
    let values: Vec<&str> = four.iter().map(|(_, v)| v.as_str()).collect();
    assert_eq!(values, vec!["1", "2", "3", "4"]);
}

#[test]
fn margin_with_five_values_stays_as_written() {
    let got = pairs(PropertyId::Margin, "1 2 3 4 5");
    assert_eq!(got, vec![(PropertyId::Margin, "1 2 3 4 5".to_string())]);
    let none = pairs(PropertyId::Margin, "");
    assert_eq!(none, vec![(PropertyId::Margin, "".to_string())]);
}

#[test]
fn background_that_looks_like_a_color() {
    assert_eq!(pairs(PropertyId::Background, "#fff")[0].0, PropertyId::BackgroundColor);
    assert_eq!(pairs(PropertyId::Background, "rgb(1,2,3)")[0].0, PropertyId::BackgroundColor);
    assert_eq!(pairs(PropertyId::Background, "Orange")[0].0, PropertyId::BackgroundColor);
    assert_eq!(pairs(PropertyId::Background, "url(x.png)")[0].0, PropertyId::Background);
}

#[test]
fn other_properties_are_not_expanded() {
    assert_eq!(pairs(PropertyId::Color, "red"), vec![(PropertyId::Color, "red".to_string())]);
}

#[test]
fn declarations_with_important_and_unknown_names() {
    let d = parse_declarations("color: red !IMPORTANT; ; nonsense; frob: 1; margin: 0 auto");
    assert_eq!(d.len(), 6);
    assert_eq!(d[0].property, PropertyId::Color);
    assert_eq!(d[0].value, "red");
    assert!(d[0].important);
    assert_eq!(d[1].property, PropertyId::Unknown);
    assert_eq!(d[1].value, "1");
    assert!(!d[1].important);
    assert_eq!(d[2].property, PropertyId::MarginTop);
    assert_eq!(d[2].value, "0");
    assert_eq!(d[3].property, PropertyId::MarginRight);
    assert_eq!(d[3].value, "auto");
    assert_eq!(d[5].property, PropertyId::MarginLeft);
}

#[test]
fn important_shorthand_marks_every_side() {
    let d = parse_declarations("padding: 1px 2px!important");
    assert_eq!(d.len(), 4);
    assert!(d.iter().all(|x| x.important));
    assert_eq!(d[1].value, "2px");
}

#[test]
fn rule_without_a_selector_is_dropped() {
    assert!(parse_rule(" , ,", "color: red").is_none());
    let r = parse_rule("a, , b", "color: red").unwrap();
    assert_eq!(r.selectors.len(), 2);
    assert_eq!(r.declarations.len(), 1);
}

#[test]
fn comments_are_passed_over() {
    let rules = parse_stylesheet("/* a { } */ p /* x */ { color: /* y */ red; } /* unclosed");
    assert_eq!(rules.len(), 1);
    assert_eq!(rules[0].declarations.len(), 1);
    assert_eq!(rules[0].declarations[0].value, "red");
}

#[test]
fn nested_braces_stay_in_the_block() {
    let rules = parse_stylesheet("a { color: red; b { x: y } } c { d: e }");
    assert_eq!(rules.len(), 2);
    assert_eq!(rules[1].declarations[0].value, "e");
}

#[test]
fn unclosed_block_gives_no_rule() {
    assert_eq!(parse_stylesheet("a { color: red").len(), 0);
    assert_eq!(parse_stylesheet("").len(), 0);
}
