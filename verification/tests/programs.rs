use adze::compiler::CompilerState;
use adze::parse_error::ParseError;
use adze::parser::{parse_program, SourceInput};

fn input(path: &str, text: &str) -> SourceInput {
    SourceInput {
        path: String::from(path),
        text: Some(String::from(text)),
    }
}

#[test]
fn compiler_state_starts_empty() {
    let state = CompilerState::new();
    assert_eq!(state.sources.len(), 0);
}

#[test]
fn program_with_one_file_parses() {
    let mut state = CompilerState::new();
    let program = parse_program(&mut state, vec![input("/p/a.adze", "struct A {}")]).unwrap();
    assert_eq!(program.files.len(), 1);
    assert_eq!(state.sources.len(), 1);
    assert_eq!(state.sources[0].name, "/p/a.adze");
    assert_eq!(state.sources[0].path.as_deref(), Some("/p/a.adze"));
}

#[test]
fn same_canonical_path_is_visited_once() {
    // two queue entries resolving to one canonical path: one parsed file
    let mut state = CompilerState::new();
    let program = parse_program(
        &mut state,
        vec![
            input("/p/a.adze", "struct A {}"),
            input("/p/a.adze", "struct A {}"),
        ],
    )
    .unwrap();
    assert_eq!(program.files.len(), 1);
    assert_eq!(state.sources.len(), 1);
}

#[test]
fn dedup_spans_separate_runs_over_one_state() {
    let mut state = CompilerState::new();
    let first = parse_program(&mut state, vec![input("/p/a.adze", "struct A {}")]).unwrap();
    assert_eq!(first.files.len(), 1);
    let second = parse_program(&mut state, vec![input("/p/a.adze", "struct A {}")]).unwrap();
    assert_eq!(second.files.len(), 0);
    assert_eq!(state.sources.len(), 1);
}

#[test]
fn distinct_paths_all_parse() {
    let mut state = CompilerState::new();
    let program = parse_program(
        &mut state,
        vec![
            input("/p/a.adze", "struct A {}"),
            input("/p/b.adze", "fn f() -> Int { return 0; }"),
        ],
    )
    .unwrap();
    assert_eq!(program.files.len(), 2);
    assert_eq!(state.sources.len(), 2);
}

#[test]
fn unreadable_file_is_diagnosed() {
    let mut state = CompilerState::new();
    let errors = parse_program(
        &mut state,
        vec![SourceInput {
            path: String::from("/p/missing.adze"),
            text: None,
        }],
    )
    .unwrap_err();
    assert_eq!(errors.len(), 1);
    match errors.get(0) {
        ParseError::FileNotFound(path, _) => assert_eq!(path, "/p/missing.adze"),
        _ => panic!("expected a file-not-found diagnostic"),
    }
    // no source is recorded for a file that could not be read
    assert_eq!(state.sources.len(), 0);
    let rendered = errors.render_all();
    assert!(rendered.contains("Could not read from file '/p/missing.adze'."));
}

#[test]
fn lexical_errors_fail_the_program() {
    let mut state = CompilerState::new();
    let errors = parse_program(&mut state, vec![input("/p/bad.adze", "@")]).unwrap_err();
    assert_eq!(errors.len(), 1);
    assert!(matches!(errors.get(0), ParseError::UnexpectedCharacter('@', _)));
    // the source is still recorded as loaded
    assert_eq!(state.sources.len(), 1);
}

#[test]
fn syntax_errors_fail_the_program() {
    let mut state = CompilerState::new();
    let errors =
        parse_program(&mut state, vec![input("/p/bad.adze", "struct {")]).unwrap_err();
    assert!(errors.len() >= 1);
}

#[test]
fn no_partial_tree_alongside_errors() {
    // one clean file plus one bad file: the whole program reports errors
    let mut state = CompilerState::new();
    let result = parse_program(
        &mut state,
        vec![
            input("/p/good.adze", "struct A {}"),
            input("/p/bad.adze", "struct ;"),
        ],
    );
    assert!(result.is_err());
}

#[test]
fn program_errors_render() {
    let mut state = CompilerState::new();
    let errors = parse_program(&mut state, vec![input("/p/bad.adze", "@")]).unwrap_err();
    let rendered = errors.render_all();
    assert!(rendered.contains("Unexpected character '@'."));
    assert!(rendered.contains("|> In /p/bad.adze"));
}
