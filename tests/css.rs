use browser::css::parser::CssParser;
use browser::css::stylesheet::{
    box_value_from_declaration, string_to_property, string_to_value, BlockType, Declaration,
    Property, Rule, Selector, Unit, Value,
};
use browser::dom_tree::ElementType;

#[test]
fn test_parse_valid_declaration() {
    // "bold" is a word but not a known keyword: the declaration is dropped.
    let mut css = CssParser::new("{ font-size: bold }".to_string());

    let dec = css.parse_declaration();
    assert!(dec.is_empty());
}

#[test]
fn test_parse_invalid_a_declaration() {
    let mut css = CssParser::new("{ : bold }".to_string());

    let dec = css.parse_declaration();
    assert!(dec.is_empty());
}

#[test]
fn test_parse_invalid_b_declaration() {
    let mut css = CssParser::new("{ font-size  }".to_string());

    let dec = css.parse_declaration();
    assert!(dec.is_empty());
}

#[test]
fn test_parse_invalid_c_declaration() {
    let mut css = CssParser::new("{ font-size ;".to_string());

    let dec = css.parse_declaration();
    assert!(dec.is_empty());
}

#[test]
fn test_parse_valid_multiline_declaration() {
    let dec_text = "{ font-size: bold; \
					   line-height: 23px; }";
    let mut css = CssParser::new(dec_text.to_string());

    let mut dec = css.parse_declaration();
    assert_eq!(dec.len(), 1);
    let last = dec.pop().unwrap();
    assert!(last.property_name == Property::LineHeight);
    assert!(last.property_value == Value::Size(23, Unit::Px));
}

#[test]
fn declaration_block_keeps_sizes_and_drops_colour_words() {
    let mut css = CssParser::new("{ font-size: 12px; line-height: 32px; color: red }".to_string());
    let dec = css.parse_declaration();
    assert_eq!(dec.len(), 2);
    assert!(dec[0] == Declaration { property_name: Property::FontSize, property_value: Value::Size(12, Unit::Px) });
    assert!(dec[1] == Declaration { property_name: Property::LineHeight, property_value: Value::Size(32, Unit::Px) });
}

#[test]
fn test_parse_full_sel_dec_one_line() {
    let css_text = "h1 { font-size: 12px }";
    let mut css = CssParser::new(css_text.to_string());

    let sel = css.parse_selector();
    let dec = css.parse_declaration();

    assert!(sel.is_some() == true);
    assert_eq!(dec.len(), 1);
}

#[test]
fn test_full_css_parse_one_line() {
    let css_text = "h1 { font-size: 12px }";
    let mut css = CssParser::new(css_text.to_string());

    let stylesheet = css.parse_css();
    let rules = &stylesheet.ruleset;
    let head = &Selector::SelectorType(ElementType::Head);

    assert!(!rules.is_empty());
    assert!(rules.contains_key(head));

    let decs = rules.get(head);

    assert!(decs.is_some());
    assert_eq!(decs.unwrap().len(), 1);
    assert!(decs.unwrap()[0].property_name == Property::FontSize);
    assert!(decs.unwrap()[0].property_value == Value::Size(12, Unit::Px));
}

#[test]
fn test_full_css_parse_multi_line() {
    let num_decs = 2;
    let css_text = "h1 {
						font-size: 12px;
						line-height: 32px;
						color: red
					}";
    let mut css = CssParser::new(css_text.to_string());

    let stylesheet = css.parse_css();
    let rules = &stylesheet.ruleset;
    let head = &Selector::SelectorType(ElementType::Head);
    let decs = rules.get(head);

    assert!(!rules.is_empty());
    assert!(rules.contains_key(head));

    let props = [Property::FontSize, Property::LineHeight];
    let values = [Value::Size(12, Unit::Px), Value::Size(32, Unit::Px)];

    assert!(decs.is_some());
    assert_eq!(decs.unwrap().len(), num_decs);

    for i in 0..num_decs {
        assert!(decs.unwrap()[i].property_name == props[i]);
        assert!(decs.unwrap()[i].property_value == values[i]);
    }
}

#[test]
fn test_full_css_parse_multi_selects() {
    let num_decs = 2;

    let css_text = "h1 {
						font-size: 12px;
						line-height: 32px;
						color: red
					}

					body {
						color: red;
						font-size: 32px;
						line-height: 34px	
					}";
    let mut css = CssParser::new(css_text.to_string());

    let stylesheet = css.parse_css();
    let rules = &stylesheet.ruleset;
    let head = &Selector::SelectorType(ElementType::Head);
    let body = &Selector::SelectorType(ElementType::Body);
    let decs_head = rules.get(head);
    let decs_body = rules.get(body);

    assert!(!rules.is_empty());
    assert!(rules.contains_key(head));
    assert!(rules.contains_key(body));

    let props = [Property::FontSize, Property::LineHeight];
    let head_values = [Value::Size(12, Unit::Px), Value::Size(32, Unit::Px)];
    let body_values = [Value::Size(32, Unit::Px), Value::Size(34, Unit::Px)];

    assert!(decs_head.is_some());
    assert!(decs_body.is_some());
    assert_eq!(decs_head.unwrap().len(), num_decs);
    assert_eq!(decs_body.unwrap().len(), num_decs);

    for i in 0..num_decs {
        assert!(decs_head.unwrap()[i].property_name == props[i]);
        assert!(decs_head.unwrap()[i].property_value == head_values[i]);
    }

    for i in 0..num_decs {
        assert!(decs_body.unwrap()[i].property_name == props[i]);
        assert!(decs_body.unwrap()[i].property_value == body_values[i]);
    }
}

#[test]
fn rules_for_one_selector_accumulate_in_order() {
    let mut css = CssParser::new(
        "body { margin-top: 1px } p { margin-top: 9px } body { margin-top: 2px; display: inline }"
            .to_string(),
    );
    let stylesheet = css.parse_css();
    let body = &Selector::SelectorType(ElementType::Body);
    let decs = stylesheet.ruleset.get(body).unwrap();
    assert_eq!(decs.len(), 3);
    assert!(decs[0].property_value == Value::Size(1, Unit::Px));
    assert!(decs[1].property_value == Value::Size(2, Unit::Px));
    assert!(decs[2].property_value == Value::Block(BlockType::Inline));
    assert_eq!(box_value_from_declaration(decs, Property::MarginTop), 1);
    assert_eq!(box_value_from_declaration(decs, Property::MarginBottom), 0);
    assert!(!stylesheet.ruleset.contains_key(&Selector::SelectorType(ElementType::Title)));
}

#[test]
fn empty_rule_still_makes_an_entry() {
    let mut css = CssParser::new("title { }".to_string());
    let stylesheet = css.parse_css();
    let title = &Selector::SelectorType(ElementType::Title);
    assert!(stylesheet.ruleset.contains_key(title));
    assert_eq!(stylesheet.ruleset.get(title).unwrap().len(), 0);
}

#[test]
fn empty_stylesheet() {
    let mut css = CssParser::new("".to_string());
    let stylesheet = css.parse_css();
    assert!(stylesheet.ruleset.is_empty());
    assert!(Rule::new().is_empty());
}

#[test]
fn box_value_uses_the_first_declaration_of_the_property() {
    let decs = vec![
        Declaration { property_name: Property::PaddingLeft, property_value: Value::Block(BlockType::Block) },
        Declaration { property_name: Property::PaddingLeft, property_value: Value::Size(4, Unit::Px) },
        Declaration { property_name: Property::PaddingRight, property_value: Value::Size(6, Unit::Em) },
    ];
    assert_eq!(box_value_from_declaration(&decs, Property::PaddingLeft), 0);
    assert_eq!(box_value_from_declaration(&decs, Property::PaddingRight), 6);
    assert_eq!(box_value_from_declaration(&decs, Property::MarginLeft), 0);
}

#[test]
fn test_string_to_property() {
    let prop = string_to_property(" font-size  ");
    assert!(prop.is_some());
    assert!(prop.unwrap() == Property::FontSize);

    let invalid_prop = string_to_property(" sdf");
    assert!(invalid_prop.is_none());
}

#[test]
fn every_property_name() {
    let names = [
        ("font-size", Property::FontSize),
        ("line-height", Property::LineHeight),
        ("color", Property::Color),
        ("display", Property::Display),
        ("margin-top", Property::MarginTop),
        ("margin-bottom", Property::MarginBottom),
        ("margin-left", Property::MarginLeft),
        ("margin-right", Property::MarginRight),
        ("padding-top", Property::PaddingTop),
        ("padding-bottom", Property::PaddingBottom),
        ("padding-left", Property::PaddingLeft),
        ("padding-right", Property::PaddingRight),
        ("border-top-height", Property::BorderTopHeight),
        ("border-bottom-height", Property::BorderBottomHeight),
        ("border-left-height", Property::BorderLeftHeight),
        ("border-right-height", Property::BorderRightHeight),
    ];
    for (name, prop) in names.iter() {
        assert!(string_to_property(name) == Some(*prop));
    }
    assert!(string_to_property("Font-size").is_none());
    assert!(string_to_property("").is_none());
}

#[test]
fn test_string_to_value() {
    let val = string_to_value("sdlfj");
    assert!(val == Value::Missing);
}

#[test]
fn test_value_parsing() {
    let mut val = string_to_value("12px");
    assert!(val == Value::Size(12, Unit::Px));

    val = string_to_value("15em");
    assert!(val == Value::Size(15, Unit::Em));

    val = string_to_value("143cm");
    assert!(val == Value::Size(143, Unit::Px));

    val = string_to_value("143");
    assert!(val == Value::Missing);

    val = string_to_value("block");
    assert!(val == Value::Block(BlockType::Block));

    val = string_to_value("inline");
    assert!(val == Value::Block(BlockType::Inline));
}

#[test]
fn value_edge_cases() {
    assert!(string_to_value("  7em  ") == Value::Size(7, Unit::Em));
    assert!(string_to_value("12p") == Value::Missing);
    assert!(string_to_value("") == Value::Missing);
    assert!(string_to_value("   ") == Value::Missing);
    assert!(string_to_value("#fff") == Value::Missing);
    assert!(string_to_value("4294967295px") == Value::Size(4294967295, Unit::Px));
    assert!(string_to_value("4294967296px") == Value::Missing);
    assert!(string_to_value("0000000000001px") == Value::Size(1, Unit::Px));
    assert!(string_to_value("block1") == Value::Block(BlockType::Block));
    assert!(string_to_value("blocks") == Value::Missing);
    assert!(string_to_value("Block") == Value::Missing);
}

fn css_parse_selector(selector_text: &str, should_match: bool) {
    let mut css = CssParser::new(selector_text.to_string());

    let selector = css.parse_selector();

    assert!(selector.is_some() == should_match);
}

#[test]
fn parse_title_selector() {
    css_parse_selector("title", true);
    css_parse_selector("body", true);
    css_parse_selector("h1", true);
    css_parse_selector("h2", true);
    css_parse_selector("h3", true);
    css_parse_selector("h4", true);

    css_parse_selector("none", false);

    css_parse_selector("title {", true);
}

#[test]
fn selectors_map_to_element_types() {
    let mut css = CssParser::new("  h3   {".to_string());
    assert!(css.parse_selector() == Some(Selector::SelectorType(ElementType::Head)));
    assert_eq!(css.parse.peek_char(), Some('{'));
    let mut css = CssParser::new("title{".to_string());
    assert!(css.parse_selector() == Some(Selector::SelectorType(ElementType::Title)));
    let mut css = CssParser::new("h5 {".to_string());
    assert!(css.parse_selector().is_none());
}

#[test]
fn pair_without_colon_stops_at_the_block_end() {
    let mut css = CssParser::new("{ a }x".to_string());
    let dec = css.parse_declaration();
    assert!(dec.is_empty());
    assert_eq!(css.parse.peek_char(), Some('x'));
}

#[test]
fn rule_after_a_block_without_colon_is_read() {
    let mut css = CssParser::new("h1 { a } body { margin-top: 5px }".to_string());
    let stylesheet = css.parse_css();
    let body = stylesheet.ruleset.get(&Selector::SelectorType(ElementType::Body)).unwrap();
    assert_eq!(body.len(), 1);
    assert!(body[0] == Declaration { property_name: Property::MarginTop, property_value: Value::Size(5, Unit::Px) });
    let head = stylesheet.ruleset.get(&Selector::SelectorType(ElementType::Head)).unwrap();
    assert_eq!(head.len(), 0);
}

#[test]
fn brace_inside_a_name_is_part_of_the_name() {
    let mut css = CssParser::new("{ {color: 5px }".to_string());
    let dec = css.parse_declaration();
    assert!(dec.is_empty());
    assert!(css.parse.end_of_string());
}

#[test]
fn block_ends_at_its_first_closing_brace() {
    let mut css = CssParser::new("  {margin-left:3px;;padding-top : 2em;} rest".to_string());
    let dec = css.parse_declaration();
    assert_eq!(dec.len(), 2);
    assert!(dec[0] == Declaration { property_name: Property::MarginLeft, property_value: Value::Size(3, Unit::Px) });
    assert!(dec[1] == Declaration { property_name: Property::PaddingTop, property_value: Value::Size(2, Unit::Em) });
    assert_eq!(css.parse.peek_char(), Some(' '));
}

#[test]
fn unclosed_block_runs_to_the_end() {
    let mut css = CssParser::new("{ font-size: 12px".to_string());
    let dec = css.parse_declaration();
    assert_eq!(dec.len(), 1);
    assert!(css.parse.end_of_string());
}
