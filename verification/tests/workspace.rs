use spelgud::error::Error;
use spelgud::file::{Change, EditError};
use spelgud::position::{Position, Range};
use spelgud::spell::{Action, Diagnostic, Severity, SpellError};
use spelgud::symbols::{SymbolInformation, SymbolKind};
use spelgud::workspace::Workspace;

const EXAMPLE: &str =
    "The quick brown fox jumped over the lazy dog.\nThe quik brown fox jumpd over the lazy dog.\n";

fn range(line: u32, from: u32, to: u32) -> Range {
    Range {
        start: Position {
            line,
            character: from,
        },
        end: Position {
            line,
            character: to,
        },
    }
}

/// The range of the first `target` in `text`, and `message` for it.
fn diag(text: &str, target: &str, message: &str) -> Diagnostic {
    let (prefix, _) = text.split_once(target).unwrap();
    let lines = prefix.lines();
    let line = (lines.clone().count() - 1) as u32;
    let character = lines.last().unwrap().chars().count() as u32;
    let size = target.chars().count() as u32;
    Diagnostic {
        range: range(line, character, character + size),
        severity: Severity::Error,
        message: message.into(),
        data: None,
    }
}

fn check_diags(actual: &[Diagnostic], expected: &[Diagnostic]) {
    assert_eq!(expected.len(), actual.len());
    for (expected, actual) in expected.iter().zip(actual) {
        assert_eq!(expected.range, actual.range);
        assert_eq!(expected.message, actual.message);
    }
}

/// Carries a diagnosis that has begun with `action` through, with a checker
/// that says `replies`.
fn carry(
    workspace: &mut Workspace,
    mut action: Action,
    replies: &[&str],
) -> Result<Vec<Diagnostic>, SpellError> {
    let mut said = replies.iter();
    loop {
        match action {
            Action::Ask(_) | Action::Read => {
                assert!(workspace.listening());
                action = workspace.reply(said.next().expect("the checker has more to say"));
            }
            Action::Done(found) => return Ok(found),
            Action::Fail(e) => return Err(e),
        }
    }
}

const EXAMPLE_REPLIES: [&str; 4] = [
    "\n",
    "& quik 9 4: quick, quack, quirk, quin, quit, Quito, quid, quip, quiz\n",
    "& jumpd 3 19: jumped, jump, jumps\n",
    "\n",
];

#[test]
fn test_open() {
    let mut workspace = Workspace::new();
    let uri = "file:///testdata/example.txt".to_string();
    let action = workspace.open(uri.clone(), EXAMPLE.to_string());
    let diags = carry(&mut workspace, action, &EXAMPLE_REPLIES).unwrap();
    check_diags(
        &diags,
        &[
            diag(EXAMPLE, "quik", "quik"),
            diag(EXAMPLE, "jumpd", "jumpd"),
        ],
    );
    assert_eq!(diags[0].range, range(1, 4, 8));
    assert_eq!(diags[1].range, range(1, 19, 24));
    assert_eq!(workspace.text(&uri), Some(EXAMPLE));
}

#[test]
fn test_diagnostics_on_save() {
    let uri = "file:///tmp/example.txt".to_string();
    let mut workspace = Workspace::new();

    let text = "This has no errors.";
    let action = workspace.open(uri.clone(), text.to_string());
    let diags = carry(&mut workspace, action, &["\n"]).unwrap();
    assert_eq!(diags, vec![]);

    let text = r#"This has no errors, but now it duz"#;
    let start = Position {
        line: 0,
        character: "This has no errors".len() as u32,
    };
    workspace
        .edit(
            &uri,
            vec![Change {
                text: ", but now it duz".into(),
                range: Some(Range { start, end: start }),
            }],
        )
        .unwrap();
    assert_eq!(
        workspace.text(&uri),
        Some("This has no errors, but now it duz.")
    );

    let action = workspace.save(uri.clone()).unwrap();
    assert_eq!(
        action,
        Action::Ask("This has no errors, but now it duz.\n".to_string())
    );
    let diags = carry(
        &mut workspace,
        action,
        &["& duz 5 31: dux, duo, dub, due, dug\n", "\n"],
    )
    .unwrap();
    check_diags(&diags, &[diag(text, "duz", "duz")]);
}

#[test]
fn test_document_symbols_cover_their_lines() {
    let uri = "file:///testdata/example.txt";
    let mut workspace = Workspace::new();
    let action = workspace.open(uri.to_string(), EXAMPLE.to_string());
    carry(&mut workspace, action, &EXAMPLE_REPLIES).unwrap();
    assert_eq!(
        workspace.symbols(uri).unwrap(),
        vec![
            SymbolInformation {
                name: "The quick brown fox jumped over the lazy dog.".into(),
                kind: SymbolKind::String,
                uri: uri.into(),
                range: range(0, 0, 45),
            },
            SymbolInformation {
                name: "The quik brown fox jumpd over the lazy dog.".into(),
                kind: SymbolKind::String,
                uri: uri.into(),
                range: range(1, 0, 43),
            },
        ]
    );
}

#[test]
fn symbols_pass_over_empty_lines() {
    let uri = "u";
    let mut workspace = Workspace::new();
    let action = workspace.open(uri.to_string(), "\n日本\r\n\n\nx".to_string());
    carry(&mut workspace, action, &["\n", "\n"]).unwrap();
    let found = workspace.symbols(uri).unwrap();
    assert_eq!(found.len(), 2);
    assert_eq!(found[0].name, "日本");
    assert_eq!(found[0].range, range(1, 0, 2));
    assert_eq!(found[1].name, "x");
    assert_eq!(found[1].range, range(4, 0, 1));
}

#[test]
fn test_complete() {
    let uri = "file:///testdata/example.txt";
    let mut workspace = Workspace::new();
    let action = workspace.open(uri.to_string(), EXAMPLE.to_string());
    carry(&mut workspace, action, &EXAMPLE_REPLIES).unwrap();
    assert_eq!(workspace.complete(uri, 2, 0), Ok(None));
}

#[test]
fn a_document_that_is_not_open_is_unknown() {
    let mut workspace = Workspace::new();
    let uri = "file:///nowhere".to_string();
    assert_eq!(workspace.save(uri.clone()), Err(Error::NotLoaded(uri.clone())));
    assert_eq!(
        workspace.edit(&uri, vec![]),
        Err(Error::NotLoaded(uri.clone()))
    );
    assert_eq!(workspace.symbols(&uri), Err(Error::NotLoaded(uri.clone())));
    assert_eq!(workspace.text(&uri), None);
    assert_eq!(
        Error::NotLoaded(uri).message(),
        "File not loaded: file:///nowhere"
    );
}

#[test]
fn a_document_is_open_once_its_diagnosis_is_complete() {
    let mut workspace = Workspace::new();
    let uri = "u".to_string();
    let action = workspace.open(uri.clone(), "one\ntwo".to_string());
    assert_eq!(action, Action::Ask("one\n".to_string()));
    assert_eq!(workspace.text(&uri), None);
    assert_eq!(workspace.reply("\n"), Action::Ask("two\n".to_string()));
    assert_eq!(workspace.text(&uri), None);
    assert_eq!(workspace.reply("\n"), Action::Done(vec![]));
    assert_eq!(workspace.text(&uri), Some("one\ntwo"));
}

#[test]
fn a_failed_diagnosis_leaves_the_document_out() {
    let mut workspace = Workspace::new();
    let uri = "u".to_string();
    let action = workspace.open(uri.clone(), "one".to_string());
    assert_eq!(
        carry(&mut workspace, action, &["nonsense\n"]),
        Err(SpellError::UnexpectedLine("nonsense\n".to_string()))
    );
    assert_eq!(workspace.text(&uri), None);
    assert!(!workspace.listening());
}

#[test]
fn a_failed_diagnosis_leaves_the_earlier_document_in() {
    let mut workspace = Workspace::new();
    let uri = "u".to_string();
    let action = workspace.open(uri.clone(), "one".to_string());
    carry(&mut workspace, action, &["\n"]).unwrap();
    let action = workspace.open(uri.clone(), "two".to_string());
    assert!(carry(&mut workspace, action, &["nonsense\n"]).is_err());
    assert_eq!(workspace.text(&uri), Some("one"));
}

#[test]
fn opening_again_replaces_the_document() {
    let mut workspace = Workspace::new();
    let uri = "u".to_string();
    let action = workspace.open(uri.clone(), "one".to_string());
    carry(&mut workspace, action, &["\n"]).unwrap();
    let action = workspace.open(uri.clone(), "".to_string());
    assert_eq!(action, Action::Done(vec![]));
    assert_eq!(workspace.text(&uri), Some(""));
}

#[test]
fn an_aborted_opening_leaves_the_document_out() {
    let mut workspace = Workspace::new();
    let uri = "u".to_string();
    let action = workspace.open(uri.clone(), "one".to_string());
    assert_eq!(action, Action::Ask("one\n".to_string()));
    workspace.abort();
    assert!(!workspace.listening());
    assert_eq!(workspace.text(&uri), None);
}

#[test]
fn saving_diagnoses_the_text_as_it_stands() {
    let mut workspace = Workspace::new();
    let uri = "u".to_string();
    let action = workspace.open(uri.clone(), "one\n".to_string());
    carry(&mut workspace, action, &["\n"]).unwrap();
    workspace
        .edit(
            &uri,
            vec![Change {
                range: Some(range(0, 0, 3)),
                text: "twoo".into(),
            }],
        )
        .unwrap();
    let action = workspace.save(uri.clone()).unwrap();
    assert_eq!(action, Action::Ask("twoo\n".to_string()));
    let found = carry(&mut workspace, action, &["# twoo 0\n", "\n"]).unwrap();
    assert_eq!(found.len(), 1);
    assert_eq!(found[0].range, range(0, 0, 4));
    assert_eq!(workspace.text(&uri), Some("twoo\n"));
}

#[test]
fn a_refused_edit_leaves_the_document_as_it_was() {
    let mut workspace = Workspace::new();
    let uri = "u".to_string();
    let action = workspace.open(uri.clone(), "one\n".to_string());
    carry(&mut workspace, action, &["\n"]).unwrap();
    let batch = vec![
        Change {
            range: Some(range(0, 0, 3)),
            text: "two".into(),
        },
        Change {
            range: None,
            text: "three".into(),
        },
    ];
    assert_eq!(
        workspace.edit(&uri, batch),
        Err(Error::Edit(EditError::MissingRange))
    );
    assert_eq!(workspace.text(&uri), Some("one\n"));
    assert_eq!(
        Error::Edit(EditError::MissingRange).message(),
        "No range in change notification"
    );
    assert_eq!(
        Error::Edit(EditError::InvertedRange).message(),
        "Range ends before it starts"
    );
}
