use tsm_language_server::CliArgs;
use tsm_language_server::backend::{
    Backend, Diagnostic, MyRange, Severity, TriggerMode, complete, diagnose, to_code_actions,
    to_completionitem,
};
use tsm_language_server::matcher::suggest;

fn args() -> CliArgs {
    CliArgs {
        suggestionsdir: String::from("testdir"),
        prefix: String::from("xyz"),
        stdio: true,
    }
}

#[test]
fn test_scenario_one_invalid_entry() {
    let text = "export const folders = [\"dir_a\", \"dir_b\"];";
    let candidates = vec![String::from("dir_a"), String::from("dir_c")];

    let diags = diagnose(text, &candidates, "folders", &String::from("testdir"));
    assert_eq!(1, diags.len());
    let d = &diags[0];
    assert_eq!(Some(String::from("dir_b")), d.data);
    assert_eq!(0, d.range.start_row);
    assert_eq!(34, d.range.start_col);
    assert_eq!(0, d.range.end_row);
    assert_eq!(39, d.range.end_col);
    assert!(matches!(d.severity, Severity::Error));
    assert_eq!(
        "'dir_b' is not a valid folder, valid folders are those in 'testdir'",
        d.message
    );

    // The scorer excludes candidates that the invalid text cannot be matched
    // against: neither candidate contains the final 'b' of the query.
    let sugg = suggest("dir_b", &candidates, 15);
    assert_eq!(0, sugg.len());
}

#[test]
fn test_scenario_empty_literal_empty_candidates() {
    let text = "export const folders = [\"\"];";
    let candidates: Vec<String> = vec![];

    let diags = diagnose(text, &candidates, "folders", &String::from("testdir"));
    assert_eq!(1, diags.len());
    assert_eq!(Some(String::from("")), diags[0].data);
    assert_eq!(25, diags[0].range.start_col);
    assert_eq!(25, diags[0].range.end_col);

    let sugg = suggest("", &candidates, 15);
    assert_eq!(0, sugg.len());
}

#[test]
fn test_scenario_two_declarations_two_diagnostics() {
    let text = "export const folders = [\"dir_a\"];\nexport const folders = [\"dir_b\"];";
    let candidates: Vec<String> = vec![];

    let diags = diagnose(text, &candidates, "folders", &String::from("testdir"));
    assert_eq!(2, diags.len());
    assert_eq!(Some(String::from("dir_a")), diags[0].data);
    assert_eq!(0, diags[0].range.start_row);
    assert_eq!(25, diags[0].range.start_col);
    assert_eq!(30, diags[0].range.end_col);
    assert_eq!(Some(String::from("dir_b")), diags[1].data);
    assert_eq!(1, diags[1].range.start_row);
    assert_eq!(25, diags[1].range.start_col);
    assert_eq!(30, diags[1].range.end_col);
}

#[test]
fn test_diagnose_all_valid_is_empty() {
    let text = "export const folders = [\"dir_a\", \"dir_b\"];";
    let candidates = vec![String::from("dir_b"), String::from("dir_a")];

    let diags = diagnose(text, &candidates, "folders", &String::from("testdir"));
    assert_eq!(0, diags.len());
}

#[test]
fn test_complete_inside_literal() {
    let text = "export const folders = [\"dir_a\", \"dir_b\"];";
    let candidates = vec![String::from("dir_a"), String::from("dir_c")];
    let prefix = String::from("xyz");

    // Column 27 lies strictly between 25 and 30, inside the first literal.
    let r = complete(text, 0, 27, "folders", &candidates, TriggerMode::Range, &prefix);
    let items = r.expect("cursor inside a literal must trigger completion");
    assert_eq!(2, items.len());
    assert_eq!("dir_a", items[0].label);
    assert_eq!("Directory", items[0].detail);
    assert_eq!("\"dir_a\"", items[0].insert_text);
    assert_eq!("dir_c", items[1].label);
    assert_eq!("\"dir_c\"", items[1].insert_text);
}

#[test]
fn test_complete_outside_literal_is_none() {
    let text = "export const folders = [\"dir_a\", \"dir_b\"];";
    let candidates = vec![String::from("dir_a")];
    let prefix = String::from("xyz");

    // In the declaration but outside any literal.
    assert!(complete(text, 0, 5, "folders", &candidates, TriggerMode::Range, &prefix).is_none());
    // Exactly on a literal's start column: not strictly inside.
    assert!(complete(text, 0, 25, "folders", &candidates, TriggerMode::Range, &prefix).is_none());
    // Wrong line.
    assert!(complete(text, 1, 27, "folders", &candidates, TriggerMode::Range, &prefix).is_none());
}

#[test]
fn test_complete_line_mode() {
    let text = "const a = 1;\nconst b = 2; // xyz here\nconst c = 3;";
    let candidates = vec![String::from("dir_a")];
    let prefix = String::from("xyz");

    let r = complete(text, 1, 0, "folders", &candidates, TriggerMode::Line, &prefix);
    let items = r.expect("cursor on the line of the trigger substring must trigger completion");
    assert_eq!(1, items.len());
    assert_eq!("dir_a", items[0].label);

    assert!(complete(text, 0, 0, "folders", &candidates, TriggerMode::Line, &prefix).is_none());
    assert!(complete(text, 2, 0, "folders", &candidates, TriggerMode::Line, &prefix).is_none());

    let absent = String::from("nowhere");
    assert!(complete(text, 0, 0, "folders", &candidates, TriggerMode::Line, &absent).is_none());
}

#[test]
fn test_to_completionitem_quotes_insertion() {
    let item = to_completionitem(&String::from("dir_a"));
    assert_eq!("dir_a", item.label);
    assert_eq!("Directory", item.detail);
    assert_eq!("\"dir_a\"", item.insert_text);
}

#[test]
fn test_to_code_actions_builds_edits() {
    let diag = Diagnostic {
        range: MyRange { start_row: 0, start_col: 34, end_row: 0, end_col: 39 },
        severity: Severity::Error,
        message: String::from("m"),
        data: Some(String::from("dir_b")),
    };
    let uri = String::from("file:///a.ts");
    let suggestions = suggest("dir_b", &vec![String::from("dir_b_old")], 15);
    assert_eq!(1, suggestions.len());
    assert_eq!("dir_b_old", suggestions[0].name);

    let actions = to_code_actions(&diag, &suggestions, &uri);
    assert_eq!(1, actions.len());
    assert_eq!("Use folder dir_b_old", actions[0].title);
    assert_eq!("\"dir_b_old\"", actions[0].edit.new_text);
    assert_eq!(34, actions[0].edit.range.start_col);
    assert_eq!(39, actions[0].edit.range.end_col);
    assert_eq!("file:///a.ts", actions[0].uri);
    assert_eq!(Some(String::from("dir_b")), actions[0].diagnostic.data);
}

#[test]
fn test_backend_code_actions_missing_payload_yields_nothing() {
    let backend = Backend::new(args(), TriggerMode::Range);
    let uri = String::from("file:///a.ts");
    let candidates = vec![String::from("dir_b_old")];
    let with_payload = Diagnostic {
        range: MyRange { start_row: 0, start_col: 1, end_row: 0, end_col: 2 },
        severity: Severity::Error,
        message: String::from("m"),
        data: Some(String::from("dir_b")),
    };
    let without_payload = Diagnostic {
        range: MyRange { start_row: 0, start_col: 1, end_row: 0, end_col: 2 },
        severity: Severity::Error,
        message: String::from("m"),
        data: None,
    };

    let actions = backend.code_actions(&uri, &vec![without_payload], &candidates);
    assert_eq!(0, actions.len());

    let actions = backend.code_actions(&uri, &vec![with_payload], &candidates);
    assert_eq!(1, actions.len());
    assert_eq!("Use folder dir_b_old", actions[0].title);
}

#[test]
fn test_backend_documents_and_completion_at() {
    let mut backend = Backend::new(args(), TriggerMode::Range);
    let id = String::from("file:///a.ts");
    let candidates = vec![String::from("dir_a")];

    assert!(backend.completion_at(&id, 0, 27, &candidates).is_none());

    backend.open_document(
        id.clone(),
        String::from("export const folders = [\"dir_a\", \"dir_b\"];"),
    );
    let items = backend
        .completion_at(&id, 0, 27, &candidates)
        .expect("stored document and cursor inside a literal must trigger completion");
    assert_eq!(1, items.len());

    backend.change_document(id.clone(), String::from("const unrelated = 1;"));
    assert!(backend.completion_at(&id, 0, 27, &candidates).is_none());

    backend.close_document(&id);
    assert!(backend.completion_at(&id, 0, 27, &candidates).is_none());
}

#[test]
fn test_backend_perform_diagnostics_names_configured_dir() {
    let backend = Backend::new(args(), TriggerMode::Range);
    let text = "export const folders = [\"nope\"];";
    let diags = backend.perform_diagnostics(text, &vec![String::from("dir_a")]);
    assert_eq!(1, diags.len());
    assert_eq!(
        "'nope' is not a valid folder, valid folders are those in 'testdir'",
        diags[0].message
    );
}
