use tsm_language_server::parser::LspParser;

#[test]
fn test_parse_code() {
    let source_code = r#"
             export const folders = ["dir_a", "dir_b"];
             export const other = ["other"];
         "#;

    let used_folders = LspParser::parse_code(source_code);
    assert_eq!(2, used_folders.len());
    assert_eq!("dir_a", used_folders[0].text);
    assert_eq!("dir_b", used_folders[1].text);
}

#[test]
fn test_empty_string() {
    let source_code = r#"
             export const folders = [""];
         "#;

    let used_folders = LspParser::parse_code(source_code);
    assert_eq!(1, used_folders.len());
    assert_eq!("", used_folders[0].text);
}

#[test]
fn test_parse_code_content_ranges() {
    let source_code = "export const folders = [\"dir_a\", \"dir_b\"];";

    let lits = LspParser::parse_code(source_code);
    assert_eq!(2, lits.len());
    // The ranges span exactly the characters between the quote marks.
    assert_eq!(0, lits[0].range.start_row);
    assert_eq!(25, lits[0].range.start_col);
    assert_eq!(0, lits[0].range.end_row);
    assert_eq!(30, lits[0].range.end_col);
    assert_eq!(0, lits[1].range.start_row);
    assert_eq!(34, lits[1].range.start_col);
    assert_eq!(0, lits[1].range.end_row);
    assert_eq!(39, lits[1].range.end_col);
}

#[test]
fn test_parse_code_empty_string_zero_width_range() {
    let source_code = "export const folders = [\"\"];";

    let lits = LspParser::parse_code(source_code);
    assert_eq!(1, lits.len());
    assert_eq!("", lits[0].text);
    assert_eq!(25, lits[0].range.start_col);
    assert_eq!(25, lits[0].range.end_col);
}

#[test]
fn test_parse_code_two_declarations_in_document_order() {
    let source_code = "export const folders = [\"dir_a\"];\nexport const folders = [\"dir_b\"];";

    let lits = LspParser::parse_code(source_code);
    assert_eq!(2, lits.len());
    assert_eq!("dir_a", lits[0].text);
    assert_eq!("dir_b", lits[1].text);
    assert_eq!(0, lits[0].range.start_row);
    assert_eq!(1, lits[1].range.start_row);
    assert_eq!(25, lits[0].range.start_col);
    assert_eq!(25, lits[1].range.start_col);
}

#[test]
fn test_parse_code_ignores_other_identifiers() {
    let source_code = "export const other = [\"a\"];\nconst folders = [\"keep\"];";

    let lits = LspParser::parse_code(source_code);
    assert_eq!(1, lits.len());
    assert_eq!("keep", lits[0].text);
}

#[test]
fn test_parse_code_unparsable_text_yields_nothing() {
    let lits = LspParser::parse_code("const folders = 3;");
    assert_eq!(0, lits.len());
}

#[test]
fn test_extract_custom_identifier() {
    let source_code = "export const names = [\"x\", \"y\"];";

    assert_eq!(0, LspParser::parse_code(source_code).len());
    let lits = LspParser::extract(source_code, "names");
    assert_eq!(2, lits.len());
    assert_eq!("x", lits[0].text);
    assert_eq!("y", lits[1].text);
}
