use cythanc::error::AsmError;
use cythanc::template::{Template, TemplatePiece};

const SKELETON: &str = "start\n# header VAR_DEF\nmiddle\n# header FUNCTION_DEF\n# header CODE\nend";

#[test]
fn new_reads_the_markers_of_the_skeleton() {
    let t = Template::new(SKELETON);
    assert_eq!(t.pieces.len(), 6);
    assert!(matches!(&t.pieces[0], TemplatePiece::Text(line) if line == "start"));
    assert!(matches!(&t.pieces[1], TemplatePiece::Marker(name) if name == "VAR_DEF"));
    assert!(matches!(&t.pieces[5], TemplatePiece::Text(line) if line == "end"));
    let names: Vec<&str> = t.sections.iter().map(|s| s.name.as_str()).collect();
    assert_eq!(names, vec!["VAR_DEF", "FUNCTION_DEF", "CODE"]);
    assert!(t.sections.iter().all(|s| s.fragments.is_empty()));
    assert_eq!(t.current_code_section, "CODE");
}

#[test]
fn has_section_tells_the_declared_sections() {
    let t = Template::new(SKELETON);
    assert!(t.has_section("VAR_DEF"));
    assert!(t.has_section("CODE"));
    assert!(!t.has_section("DATA"));
    assert!(!t.has_section("code"));
    assert_eq!(t.find_section("FUNCTION_DEF"), Some(1));
    assert_eq!(t.find_section("nothing"), None);
}

#[test]
fn untouched_template_builds_the_skeleton_with_empty_sections() {
    let t = Template::new(SKELETON);
    assert_eq!(t.build(), "start\n\nmiddle\n\n\nend");
    assert_eq!(Template::new("").build(), "");
    assert_eq!(Template::new("a\nb\n").build(), "a\nb\n");
}

#[test]
fn add_code_appends_to_the_active_section() {
    let mut t = Template::new(SKELETON);
    assert_eq!(t.add_code("one".to_string()), Ok(()));
    assert_eq!(t.add_code("two".to_string()), Ok(()));
    t.set_code_section("FUNCTION_DEF".to_string());
    assert_eq!(t.add_code("three".to_string()), Ok(()));
    assert_eq!(t.add_section("VAR_DEF", "four".to_string()), Ok(()));
    assert_eq!(t.add_section("CODE", "five".to_string()), Ok(()));
    assert_eq!(
        t.build(),
        "start\nfour\nmiddle\nthree\none\ntwo\nfive\nend"
    );
}

#[test]
fn undeclared_section_is_an_error_and_changes_nothing() {
    let mut t = Template::new("only\n# header CODE");
    assert_eq!(
        t.add_section("VAR_DEF", "x".to_string()),
        Err(AsmError::UndeclaredSection)
    );
    assert_eq!(t.add_code("y".to_string()), Ok(()));
    t.set_code_section("FUNCTION_DEF".to_string());
    assert_eq!(t.add_code("z".to_string()), Err(AsmError::UndeclaredSection));
    assert_eq!(t.build(), "only\ny");
    assert_eq!(
        AsmError::UndeclaredSection.message(),
        "The template has no section of this name"
    );
}

#[test]
fn a_marker_that_stands_twice_is_replaced_twice() {
    let mut t = Template::new("# header CODE\n--\n# header CODE");
    assert_eq!(t.sections.len(), 1);
    t.add_code("a".to_string()).unwrap();
    t.add_code("b".to_string()).unwrap();
    assert_eq!(t.build(), "a\nb\n--\na\nb");
}

#[test]
fn section_contains_looks_into_the_text_of_the_section() {
    let mut t = Template::new(SKELETON);
    assert!(!t.section_contains("VAR_DEF", "x"));
    assert!(t.section_contains("VAR_DEF", ""));
    t.add_section("VAR_DEF", "'var_x:16".to_string()).unwrap();
    t.add_section("VAR_DEF", "'var_y:2".to_string()).unwrap();
    assert!(t.section_contains("VAR_DEF", "'var_x:16"));
    assert!(t.section_contains("VAR_DEF", "16\n'var_y"));
    assert!(!t.section_contains("VAR_DEF", "'var_y:2\n"));
    assert!(!t.section_contains("CODE", "'var_x:16"));
    assert!(!t.section_contains("DATA", "'var_x:16"));
}

#[test]
fn marker_needs_the_exact_prefix() {
    let t = Template::new("#header CODE\n # header CODE\n# header \n# header a b");
    let names: Vec<&str> = t.sections.iter().map(|s| s.name.as_str()).collect();
    assert_eq!(names, vec!["", "a b"]);
    assert!(matches!(&t.pieces[0], TemplatePiece::Text(line) if line == "#header CODE"));
    assert!(matches!(&t.pieces[1], TemplatePiece::Text(line) if line == " # header CODE"));
}
