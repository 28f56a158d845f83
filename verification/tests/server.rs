use spelgud::error::Error;
use spelgud::file::{Change, EditError};
use spelgud::position::{Position, Range};
use spelgud::server::{
    capabilities, handle, handle_code_action, handle_completion, handle_document_symbols,
    handle_references, notify, notify_did_change, notify_did_open, notify_did_save, publish,
    route_notification, route_request, CodeAction, CodeActionKind, Followup, MessageKind,
    Notification, PositionEncoding, Request, Response, SyncKind, TextEdit, INTERNAL_ERROR,
};
use spelgud::spell::{Action, Diagnostic, DiagnosticData, Severity, SpellError};
use spelgud::workspace::Workspace;

const EXAMPLE: &str =
    "The quick brown fox jumped over the lazy dog.\nThe quik brown fox jumpd over the lazy dog.\n";

fn range(line: u32, from: u32, to: u32) -> Range {
    Range {
        start: Position {
            line,
            character: from,
        },
        end: Position {
            line,
            character: to,
        },
    }
}

fn carry(
    workspace: &mut Workspace,
    mut action: Action,
    replies: &[&str],
) -> Result<Vec<Diagnostic>, Error> {
    let mut said = replies.iter();
    loop {
        match action {
            Action::Ask(_) | Action::Read => {
                action = workspace.reply(said.next().expect("the checker has more to say"));
            }
            Action::Done(found) => return Ok(found),
            Action::Fail(e) => return Err(Error::Spell(e)),
        }
    }
}

#[test]
fn test_actions() {
    let uri = "file:///testdata/example.txt".to_string();
    let mut workspace = Workspace::new();
    let action = notify_did_open(&mut workspace, uri.clone(), EXAMPLE.to_string());
    let diags = carry(
        &mut workspace,
        action,
        &[
            "\n",
            "& quik 9 4: quick, quack, quirk, quin, quit, Quito, quid, quip, quiz\n",
            "& jumpd 3 19: jumped, jump, jumps\n",
            "\n",
        ],
    )
    .unwrap();
    let diag = diags.first().unwrap();

    let actions = handle_code_action(&mut workspace, &uri, &vec![diag.to_owned()])
        .unwrap()
        .expect("no actions");

    let fix = actions
        .iter()
        .find(|a| a.title == "Change quik to quick")
        .expect("Did not find fix");
    assert_eq!(fix.uri, uri);
    assert_eq!(
        fix.edit,
        TextEdit {
            range: diag.range,
            new_text: "quick".to_string(),
        }
    );
    assert_eq!(fix.kind, CodeActionKind::QuickFix);
    assert_eq!(actions.len(), 9);
}

fn misspelt(line: u32, from: u32, word: &str, fixes: &[&str]) -> Diagnostic {
    let at = range(line, from, from + word.chars().count() as u32);
    Diagnostic {
        range: at,
        severity: Severity::Error,
        message: word.into(),
        data: Some(DiagnosticData {
            original: word.into(),
            fixes: fixes.iter().map(|s| s.to_string()).collect(),
            range: at,
        }),
    }
}

#[test]
fn code_actions_follow_the_diagnostics_and_their_fixes() {
    let mut workspace = Workspace::new();
    let mut bare = misspelt(1, 0, "bare", &["bear"]);
    bare.data = None;
    let diagnostics = vec![
        misspelt(0, 4, "quik", &["quick", "quirk"]),
        bare,
        misspelt(0, 9, "nofix", &[]),
        misspelt(2, 1, "caffe", &["café"]),
    ];
    let actions = handle_code_action(&mut workspace, "u", &diagnostics)
        .unwrap()
        .unwrap();
    let action = |title: &str, at: Range, with: &str| CodeAction {
        title: title.into(),
        kind: CodeActionKind::QuickFix,
        uri: "u".into(),
        edit: TextEdit {
            range: at,
            new_text: with.into(),
        },
    };
    assert_eq!(
        actions,
        vec![
            action("Change quik to quick", range(0, 4, 8), "quick"),
            action("Change quik to quirk", range(0, 4, 8), "quirk"),
            action("Change caffe to café", range(2, 1, 6), "café"),
        ]
    );
    assert_eq!(
        handle_code_action(&mut workspace, "u", &vec![]),
        Ok(Some(vec![]))
    );
}

#[test]
fn methods_go_to_their_handlers() {
    assert_eq!(
        route_request("textDocument/documentSymbol"),
        Request::DocumentSymbol
    );
    assert_eq!(route_request("textDocument/references"), Request::References);
    assert_eq!(route_request("textDocument/completion"), Request::Completion);
    assert_eq!(route_request("textDocument/codeAction"), Request::CodeAction);
    assert_eq!(route_request("shutdown"), Request::Shutdown);
    assert_eq!(route_request("textDocument/hover"), Request::Unknown);
    assert_eq!(route_request("textDocument/didOpen"), Request::Unknown);
    assert_eq!(route_request(""), Request::Unknown);
    assert_eq!(
        route_notification("textDocument/didOpen"),
        Notification::DidOpen
    );
    assert_eq!(
        route_notification("textDocument/didSave"),
        Notification::DidSave
    );
    assert_eq!(
        route_notification("textDocument/didChange"),
        Notification::DidChange
    );
    assert_eq!(route_notification("initialized"), Notification::Unknown);
    assert_eq!(route_notification("exit"), Notification::Unknown);
    assert_eq!(
        route_notification("textDocument/DidOpen"),
        Notification::Unknown
    );
}

#[test]
fn a_result_is_answered_and_an_error_reported() {
    assert_eq!(handle(Ok(7)), Response::Result(7));
    assert_eq!(INTERNAL_ERROR, -32603);
    assert_eq!(
        handle::<u8>(Err(Error::NotLoaded("u".into()))),
        Response::Error {
            code: -32603,
            message: "File not loaded: u".into(),
        }
    );
    assert_eq!(
        handle::<u8>(Err(Error::Decode("missing field `textDocument`".into()))),
        Response::Error {
            code: -32603,
            message: "missing field `textDocument`".into(),
        }
    );
}

#[test]
fn an_error_after_a_notification_is_shown() {
    assert_eq!(notify(Ok(None)), None);
    let sent = Followup::Publish {
        uri: "u".into(),
        diagnostics: vec![],
    };
    assert_eq!(notify(Ok(Some(sent.clone()))), Some(sent));
    assert_eq!(
        notify(Err(Error::Spell(SpellError::UnexpectedLine("*\n".into())))),
        Some(Followup::ShowMessage {
            kind: MessageKind::Error,
            message: "Unexpected line: *\n".into(),
        })
    );
    assert_eq!(
        notify(Err(Error::Checker("Broken pipe".into()))),
        Some(Followup::ShowMessage {
            kind: MessageKind::Error,
            message: "Broken pipe".into(),
        })
    );
}

#[test]
fn what_errors_say() {
    assert_eq!(
        Error::Spell(SpellError::BadOffset("# a b\n".into())).message(),
        "No offset in line: # a b\n"
    );
    assert_eq!(
        Error::Spell(SpellError::RangeOverflow("# a 4294967295\n".into())).message(),
        "Word ends too far right in line: # a 4294967295\n"
    );
    assert_eq!(
        Error::Spell(SpellError::TooManyLines).message(),
        "Too many lines"
    );
    assert_eq!(Error::TooLarge("u".into()).message(), "File too large: u");
}

#[test]
fn diagnostics_are_published_for_their_document() {
    let found = vec![misspelt(0, 0, "quik", &["quick"])];
    assert_eq!(
        publish("u".into(), Ok(found.clone())),
        Ok(Some(Followup::Publish {
            uri: "u".into(),
            diagnostics: found,
        }))
    );
    assert_eq!(
        publish("u".into(), Err(Error::Spell(SpellError::TooManyLines))),
        Err(Error::Spell(SpellError::TooManyLines))
    );
}

#[test]
fn a_failed_diagnosis_publishes_nothing_and_is_shown() {
    let mut workspace = Workspace::new();
    let action = notify_did_open(&mut workspace, "u".into(), "one".into());
    let outcome = carry(&mut workspace, action, &["? one\n"]);
    assert_eq!(
        notify(publish("u".into(), outcome)),
        Some(Followup::ShowMessage {
            kind: MessageKind::Error,
            message: "Unexpected line: ? one\n".into(),
        })
    );
}

#[test]
fn notifications_reach_the_workspace() {
    let mut workspace = Workspace::new();
    assert_eq!(
        notify_did_save(&mut workspace, "u".into()),
        Err(Error::NotLoaded("u".into()))
    );
    let action = notify_did_open(&mut workspace, "u".into(), "one".into());
    assert_eq!(action, Action::Ask("one\n".into()));
    assert_eq!(carry(&mut workspace, action, &["\n"]), Ok(vec![]));
    let insert = Change {
        range: Some(range(0, 3, 3)),
        text: " two".into(),
    };
    assert_eq!(
        notify_did_change(&mut workspace, "u", vec![insert.clone()]),
        Ok(None)
    );
    assert_eq!(workspace.text("u"), Some("one two"));
    assert_eq!(
        notify_did_change(&mut workspace, "v", vec![insert]),
        Err(Error::NotLoaded("v".into()))
    );
    assert_eq!(
        notify_did_change(
            &mut workspace,
            "u",
            vec![Change {
                range: Some(Range {
                    start: Position {
                        line: 1,
                        character: 0,
                    },
                    end: Position {
                        line: 0,
                        character: 0,
                    },
                }),
                text: String::new(),
            }]
        ),
        Err(Error::Edit(EditError::InvertedRange))
    );
    assert_eq!(
        notify_did_save(&mut workspace, "u".into()),
        Ok(Action::Ask("one two\n".into()))
    );
}

#[test]
fn test_references() {
    let mut workspace = Workspace::new();
    let action = notify_did_open(&mut workspace, "u".into(), EXAMPLE.into());
    carry(
        &mut workspace,
        action,
        &["\n", "# quik 4\n", "# jumpd 19\n", "\n"],
    )
    .unwrap();
    assert_eq!(
        handle_references(
            &mut workspace,
            "u",
            Position {
                line: 0,
                character: 9
            }
        ),
        Ok(None)
    );
}

#[test]
fn requests_reach_the_workspace() {
    let mut workspace = Workspace::new();
    let at = Position {
        line: 2,
        character: 0,
    };
    assert_eq!(handle_completion(&mut workspace, "u", at), Ok(None));
    assert_eq!(
        handle_document_symbols(&mut workspace, "u"),
        Err(Error::NotLoaded("u".into()))
    );
    let action = notify_did_open(&mut workspace, "u".into(), "one\n\ntwo".into());
    carry(&mut workspace, action, &["\n", "\n"]).unwrap();
    let found = handle_document_symbols(&mut workspace, "u")
        .unwrap()
        .unwrap();
    assert_eq!(found.len(), 2);
    assert_eq!(found[0].name, "one");
    assert_eq!(found[1].name, "two");
    assert_eq!(found[1].range, range(2, 0, 3));
}

#[test]
fn what_the_server_announces() {
    let c = capabilities();
    assert_eq!(c.position_encoding, PositionEncoding::Utf8);
    assert!(c.open_close);
    assert!(!c.save_include_text);
    assert_eq!(c.change, SyncKind::Incremental);
    assert!(c.document_symbol_provider);
    assert!(c.workspace_symbol_provider);
    assert!(c.references_provider);
    assert_eq!(c.completion_trigger_characters, vec!["\""]);
    assert_eq!(c.diagnostic_identifier, "spelgud");
    assert!(c.workspace_diagnostics);
    assert!(c.code_action_provider);
}
