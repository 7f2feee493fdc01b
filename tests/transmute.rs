use gcsst::rule::generate_spells_map;
use gcsst::scan::{RawPrefix, ScanState};
use gcsst::source::clean_css;
use gcsst::transmute::{process_css_into_raw_spells, transmute_css, TransmuteError, TransmutedClass};

fn find<'a>(out: &'a [TransmutedClass], name: &str) -> &'a TransmutedClass {
    out.iter().find(|c| c.name == name).unwrap()
}

fn sorted(v: &[String]) -> Vec<String> {
    let mut v = v.to_vec();
    v.sort();
    v
}

fn ok(css: &str) -> Vec<TransmutedClass> {
    match transmute_css(css, false) {
        Ok(out) => out,
        Err(_) => panic!("transmutation failed"),
    }
}

#[test]
fn lib_test_generate_spells_map() {
    let mut state = ScanState::new(None);
    state.raw_prefixes.push(RawPrefix {
        class_name: "class1".to_string(),
        prefix: "prefix".to_string(),
    });
    state.declarations.push("color=red".to_string());

    let result = generate_spells_map(&state);
    let left_spells = result.get("class1").unwrap();
    let left_spells_vec: Vec<String> = left_spells.iter().map(String::from).collect();

    assert_eq!(left_spells_vec, vec!["prefixcolor=red".to_string()]);
}

#[test]
fn lib_test_process_css_into_raw_spells() {
    let css_input = ".button { color: red; }";
    let mut parser_state = ScanState::new(None);

    let result = process_css_into_raw_spells(css_input, &mut parser_state);
    assert!(result.is_ok());
    let spells_map = result.unwrap();
    let left_spells = spells_map.get("button").unwrap();
    let left_spells_vec: Vec<String> = left_spells.iter().map(String::from).collect();

    assert_eq!(left_spells_vec, vec!["color=red".to_string()]);
}

#[test]
fn generate_crosses_every_prefix_with_every_declaration() {
    let mut state = ScanState::new(None);
    for (c, p) in [("a", ""), ("a", "{:hover}"), ("b", "x__")] {
        state.raw_prefixes.push(RawPrefix { class_name: c.to_string(), prefix: p.to_string() });
    }
    state.declarations.push("color=red".to_string());
    state.declarations.push("margin=0".to_string());
    state.declarations.push("color=red".to_string());
    let m = generate_spells_map(&state);
    assert_eq!(
        sorted(m.get("a").unwrap()),
        vec!["color=red", "margin=0", "{:hover}color=red", "{:hover}margin=0"]
    );
    assert_eq!(sorted(m.get("b").unwrap()), vec!["x__color=red", "x__margin=0"]);
}

#[test]
fn generate_without_declarations_gives_no_entries() {
    let mut state = ScanState::new(None);
    state.raw_prefixes.push(RawPrefix { class_name: "a".to_string(), prefix: String::new() });
    let m = generate_spells_map(&state);
    assert!(m.entries.is_empty());
}

#[test]
fn basic_rule() {
    let out = ok(".button { color: red; }");
    assert_eq!(out.len(), 1);
    assert_eq!(out[0].name, "button");
    assert_eq!(out[0].spells, vec!["color=red".to_string()]);
    assert!(out[0].oneliner.is_none());
}

#[test]
fn comma_alternatives_with_differing_qualifiers() {
    let out = ok(".a:hover, .b { color: red; }");
    assert_eq!(out.len(), 2);
    assert_eq!(find(&out, "a").spells, vec!["{:hover}color=red".to_string()]);
    assert_eq!(find(&out, "b").spells, vec!["color=red".to_string()]);
}

#[test]
fn media_nesting() {
    let out = ok("@media (min-width: 700px) { .a { color: blue; } }");
    assert_eq!(out.len(), 1);
    assert_eq!(find(&out, "a").spells, vec!["(min-width:_700px)__color=blue".to_string()]);
}

#[test]
fn media_area_labels_every_alternative() {
    let out = ok("@media print { .a, .b { color: red; } } .c { color: blue; }");
    assert_eq!(find(&out, "a").spells, vec!["print__color=red".to_string()]);
    assert_eq!(find(&out, "b").spells, vec!["print__color=red".to_string()]);
    assert_eq!(find(&out, "c").spells, vec!["color=blue".to_string()]);
}

#[test]
fn already_migrated_selector_is_skipped() {
    let out = ok(".display\\=flex { color: red; } .b { color: blue; }");
    assert_eq!(out.len(), 1);
    assert_eq!(out[0].name, "b");
    assert_eq!(out[0].spells, vec!["color=blue".to_string()]);
}

#[test]
fn only_migrated_selectors_is_nothing_to_transmute() {
    assert!(matches!(
        transmute_css(".display\\=flex { color: red; }", false),
        Err(TransmuteError::InvalidInput(_))
    ));
}

#[test]
fn empty_result_is_invalid_input() {
    assert!(matches!(transmute_css("", false), Err(TransmuteError::InvalidInput(_))));
    assert!(matches!(transmute_css(".a { }", false), Err(TransmuteError::InvalidInput(_))));
    assert!(matches!(
        transmute_css("{ color: red; }", false),
        Err(TransmuteError::InvalidInput(_))
    ));
}

#[test]
fn rejected_selector_name_is_an_oracle_error() {
    assert!(matches!(
        transmute_css(".nosuchprop\\=1 { color: red; }", false),
        Err(TransmuteError::Spell(_))
    ));
}

#[test]
fn oneliner_joins_spells_with_spaces() {
    let out = match transmute_css(".x { color: red; margin: 0; }", true) {
        Ok(out) => out,
        Err(_) => panic!("transmutation failed"),
    };
    assert_eq!(sorted(&out[0].spells), vec!["color=red", "margin=0"]);
    assert_eq!(out[0].oneliner.as_deref(), Some(out[0].spells.join(" ").as_str()));
}

#[test]
fn declaration_without_semicolon_is_dropped_and_repeats_collapse() {
    let out = ok(".a { color: red; color: red; margin: 0 }");
    assert_eq!(out[0].spells, vec!["color=red".to_string()]);
}

#[test]
fn declaration_values_keep_inner_text_with_underscores() {
    let out = ok(".a { font-family: Times New Roman; }");
    assert_eq!(out[0].spells, vec!["font-family=Times_New_Roman".to_string()]);
}

#[test]
fn combinator_attribute_function_and_universal_selectors() {
    assert_eq!(ok(".a > .b { color: red; }")[0].spells, vec!["{>_b}color=red".to_string()]);
    assert_eq!(ok(".a[href] { color: red; }")[0].spells, vec!["{[href]}color=red".to_string()]);
    assert_eq!(ok(".a:not(.b) { color: red; }")[0].spells, vec!["{:not(.b)}color=red".to_string()]);
    let star = ok("* { color: red; }");
    assert_eq!(star[0].name, "*");
    assert_eq!(star[0].spells, vec!["{*}color=red".to_string()]);
}

#[test]
fn pseudo_selector_without_class_names_the_entry() {
    let out = ok(":hover { color: red; }");
    assert_eq!(out[0].name, ":hover");
    assert_eq!(out[0].spells, vec!["{:hover}color=red".to_string()]);
    let out = ok("p::before { content: 'x'; }");
    assert_eq!(out[0].name, "p");
    assert_eq!(out[0].spells, vec!["{::before}content='x'".to_string()]);
}

#[test]
fn tag_selectors_and_descendants() {
    let out = ok("div span { color: red; }");
    assert_eq!(out[0].name, "div");
    assert_eq!(out[0].spells, vec!["{_span}color=red".to_string()]);
}

#[test]
fn clean_css_strips_comments_and_double_quotes() {
    assert_eq!(
        clean_css("/* c */.a { content: \"x\"; }/* d\n e */"),
        ".a { content: 'x'; }"
    );
}
