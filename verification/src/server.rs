//! What the server does with a message of the editor: which handler a method
//! goes to, what each handler gives, and what is sent back.

use vstd::prelude::*;
use vstd::string::*;
use crate::error::{words, Error, ErrorView};
use crate::file::Change;
use crate::position::{Position, Range};
use crate::scan::same_text;
use crate::spell::{Action, ActionView, DataView, Diagnostic, DiagnosticView, views};
use crate::symbols::{listing, symbol_views, SymbolInformation};
use crate::text::texts;
use crate::workspace::{changed, opened, saved, Workspace, WorkspaceView};

verus! {

/// The requests that the server answers.
#[derive(Clone, Copy, Debug, PartialEq, Eq, Structural)]
pub enum Request {
    DocumentSymbol,
    References,
    Completion,
    CodeAction,
    Shutdown,
    /// A request that is passed over without an answer.
    Unknown,
}

/// The notifications that the server acts on.
#[derive(Clone, Copy, Debug, PartialEq, Eq, Structural)]
pub enum Notification {
    DidOpen,
    DidSave,
    DidChange,
    /// A notification that is passed over.
    Unknown,
}

/// The request that a method name stands for.
pub open spec fn request_of(method: Seq<char>) -> Request {
    if method == "textDocument/documentSymbol"@ {
        Request::DocumentSymbol
    } else if method == "textDocument/references"@ {
        Request::References
    } else if method == "textDocument/completion"@ {
        Request::Completion
    } else if method == "textDocument/codeAction"@ {
        Request::CodeAction
    } else if method == "shutdown"@ {
        Request::Shutdown
    } else {
        Request::Unknown
    }
}

/// The notification that a method name stands for.
pub open spec fn notification_of(method: Seq<char>) -> Notification {
    if method == "textDocument/didOpen"@ {
        Notification::DidOpen
    } else if method == "textDocument/didSave"@ {
        Notification::DidSave
    } else if method == "textDocument/didChange"@ {
        Notification::DidChange
    } else {
        Notification::Unknown
    }
}

/// Which request `method` names.
pub fn route_request(method: &str) -> (r: Request)
    ensures
        r == request_of(method@),
{
    if same_text(method, "textDocument/documentSymbol") {
        Request::DocumentSymbol
    } else if same_text(method, "textDocument/references") {
        Request::References
    } else if same_text(method, "textDocument/completion") {
        Request::Completion
    } else if same_text(method, "textDocument/codeAction") {
        Request::CodeAction
    } else if same_text(method, "shutdown") {
        Request::Shutdown
    } else {
        Request::Unknown
    }
}

/// Which notification `method` names.
pub fn route_notification(method: &str) -> (r: Notification)
    ensures
        r == notification_of(method@),
{
    if same_text(method, "textDocument/didOpen") {
        Notification::DidOpen
    } else if same_text(method, "textDocument/didSave") {
        Notification::DidSave
    } else if same_text(method, "textDocument/didChange") {
        Notification::DidChange
    } else {
        Notification::Unknown
    }
}

/// The code of an answer that reports an error inside the server.
pub const INTERNAL_ERROR: i32 = -32603;

/// The answer to a request.
#[derive(Clone, Debug, PartialEq, Eq)]
pub enum Response<T> {
    /// The request succeeded with this result.
    Result(T),
    /// The request failed.
    Error { code: i32, message: String },
}

/// The answer to a request whose handler gave `outcome`: its result, or an
/// internal error with what the error says.
pub fn handle<T>(outcome: Result<T, Error>) -> (r: Response<T>)
    ensures
        match outcome {
            Ok(value) => r == Response::Result(value),
            Err(e) => r matches Response::Error { code, message } && code == INTERNAL_ERROR
                && message@ == words(e@),
        },
{
    match outcome {
        Ok(value) => Response::Result(value),
        Err(e) => Response::Error { code: INTERNAL_ERROR, message: e.message() },
    }
}

/// How grave a message for the user is.
#[derive(Clone, Copy, Debug, PartialEq, Eq, Structural)]
pub enum MessageKind {
    Error,
    Warning,
    Info,
    Log,
}

/// What the server sends after a notification.
#[derive(Clone, Debug, PartialEq, Eq)]
pub enum Followup {
    /// The diagnostics of a document.
    Publish { uri: String, diagnostics: Vec<Diagnostic> },
    /// A message for the user.
    ShowMessage { kind: MessageKind, message: String },
}

/// The mathematical content of a [`Followup`].
pub enum FollowupView {
    Publish { uri: Seq<char>, diagnostics: Seq<DiagnosticView> },
    ShowMessage { kind: MessageKind, message: Seq<char> },
}

impl View for Followup {
    type V = FollowupView;

    open spec fn view(&self) -> FollowupView {
        match self {
            Followup::Publish { uri, diagnostics } => FollowupView::Publish {
                uri: uri@,
                diagnostics: views(diagnostics@),
            },
            Followup::ShowMessage { kind, message } => FollowupView::ShowMessage {
                kind: *kind,
                message: message@,
            },
        }
    }
}

/// What is sent after a notification whose handler gave `outcome`: what the
/// handler asked for, if anything; for an error, a message that shows it to
/// the user.
pub fn notify(outcome: Result<Option<Followup>, Error>) -> (r: Option<Followup>)
    ensures
        match outcome {
            Ok(Some(followup)) => r matches Some(sent) && sent@ == followup@,
            Ok(None) => r is None,
            Err(e) => r matches Some(sent) && sent@ == (FollowupView::ShowMessage {
                kind: MessageKind::Error,
                message: words(e@),
            }),
        },
{
    match outcome {
        Ok(followup) => followup,
        Err(e) => Some(Followup::ShowMessage { kind: MessageKind::Error, message: e.message() }),
    }
}

/// What is sent for the document `uri` once its diagnosis has ended: its
/// diagnostics; none if the diagnosis failed.
pub fn publish(uri: String, outcome: Result<Vec<Diagnostic>, Error>) -> (r: Result<
    Option<Followup>,
    Error,
>)
    ensures
        match outcome {
            Ok(found) => r matches Ok(Some(sent)) && sent@ == (FollowupView::Publish {
                uri: uri@,
                diagnostics: views(found@),
            }),
            Err(e) => r matches Err(same) && same@ == e@,
        },
{
    match outcome {
        Ok(diagnostics) => Ok(Some(Followup::Publish { uri, diagnostics })),
        Err(e) => Err(e),
    }
}

/// A document was opened: its diagnosis begins.
pub fn notify_did_open(workspace: &mut Workspace, uri: String, text: String) -> (action: Action)
    ensures
        (final(workspace)@, action@) == opened(old(workspace)@, uri@, text@),
{
    workspace.open(uri, text)
}

/// A document was saved: its diagnosis begins.
pub fn notify_did_save(workspace: &mut Workspace, uri: String) -> (r: Result<Action, Error>)
    ensures
        match r {
            Ok(action) => saved(old(workspace)@, uri@) == Ok::<_, ErrorView>(
                (final(workspace)@, action@),
            ),
            Err(e) => saved(old(workspace)@, uri@) == Err::<(WorkspaceView, ActionView), _>(e@)
                && final(workspace)@ == old(workspace)@,
        },
{
    workspace.save(uri)
}

/// A document was changed: the changes are applied, and nothing is sent.
pub fn notify_did_change(workspace: &mut Workspace, uri: &str, changes: Vec<Change>) -> (r: Result<
    Option<Followup>,
    Error,
>)
    ensures
        match r {
            Ok(followup) => followup is None && changed(old(workspace)@, uri@, changes@) == Ok::<
                _,
                ErrorView,
            >(final(workspace)@),
            Err(e) => changed(old(workspace)@, uri@, changes@) == Err::<WorkspaceView, _>(e@)
                && final(workspace)@ == old(workspace)@,
        },
{
    match workspace.edit(uri, changes) {
        Ok(()) => Ok(None),
        Err(e) => Err(e),
    }
}

/// The symbols of a document.
pub fn handle_document_symbols(workspace: &mut Workspace, uri: &str) -> (r: Result<
    Option<Vec<SymbolInformation>>,
    Error,
>)
    ensures
        final(workspace)@ == old(workspace)@,
        match r {
            Ok(answer) => answer matches Some(found) && old(workspace)@.files.contains_key(uri@)
                && listing(uri@, old(workspace)@.files[uri@]) == Some(symbol_views(found@)),
            Err(e) => if old(workspace)@.files.contains_key(uri@) {
                listing(uri@, old(workspace)@.files[uri@]) is None && e@ == ErrorView::TooLarge(
                    uri@,
                )
            } else {
                e@ == ErrorView::NotLoaded(uri@)
            },
        },
{
    match workspace.symbols(uri) {
        Ok(found) => Ok(Some(found)),
        Err(e) => Err(e),
    }
}

/// A place in a document.
#[derive(Clone, Debug, PartialEq, Eq)]
pub struct Location {
    pub uri: String,
    pub range: Range,
}

/// The references to what stands at a place: none are given.
pub fn handle_references(workspace: &mut Workspace, uri: &str, at: Position) -> (r: Result<
    Option<Vec<Location>>,
    Error,
>)
    ensures
        final(workspace)@ == old(workspace)@,
        r matches Ok(None),
{
    Ok(None)
}

/// The completions at a place: none are given.
pub fn handle_completion(workspace: &mut Workspace, uri: &str, at: Position) -> (r: Result<
    Option<Vec<String>>,
    Error,
>)
    ensures
        final(workspace)@ == old(workspace)@,
        r matches Ok(None),
{
    workspace.complete(uri, at.line as usize, at.character as usize)
}

/// What kind of action a code action is.
#[derive(Clone, Copy, Debug, PartialEq, Eq, Structural)]
pub enum CodeActionKind {
    QuickFix,
}

/// The replacement of a range by a text.
#[derive(Clone, Debug, PartialEq, Eq)]
pub struct TextEdit {
    pub range: Range,
    pub new_text: String,
}

/// An edit of one document that the editor may offer to the user.
#[derive(Clone, Debug, PartialEq, Eq)]
pub struct CodeAction {
    pub title: String,
    pub kind: CodeActionKind,
    pub uri: String,
    pub edit: TextEdit,
}

/// The mathematical content of a [`CodeAction`].
pub struct CodeActionView {
    pub title: Seq<char>,
    pub kind: CodeActionKind,
    pub uri: Seq<char>,
    pub range: Range,
    pub new_text: Seq<char>,
}

impl View for CodeAction {
    type V = CodeActionView;

    open spec fn view(&self) -> CodeActionView {
        CodeActionView {
            title: self.title@,
            kind: self.kind,
            uri: self.uri@,
            range: self.edit.range,
            new_text: self.edit.new_text@,
        }
    }
}

/// The mathematical contents of some code actions.
pub open spec fn action_views(v: Seq<CodeAction>) -> Seq<CodeActionView> {
    Seq::new(v.len(), |i: int| v[i]@)
}

/// The quick fix that puts `fix` in the place of the word that `data` is
/// about, in the document `uri`.
pub open spec fn quick_fix(uri: Seq<char>, data: DataView, fix: Seq<char>) -> CodeActionView {
    CodeActionView {
        title: "Change "@ + data.original + " to "@ + fix,
        kind: CodeActionKind::QuickFix,
        uri,
        range: data.range,
        new_text: fix,
    }
}

/// One quick fix for each of the first `count` fixes of `data`, in their
/// order.
pub open spec fn quick_fixes(uri: Seq<char>, data: DataView, count: nat) -> Seq<CodeActionView>
    decreases count,
{
    if count == 0 {
        Seq::empty()
    } else {
        quick_fixes(uri, data, (count - 1) as nat).push(
            quick_fix(uri, data, data.fixes[count - 1]),
        )
    }
}

/// The quick fixes for `diagnostics`: those of the first diagnostic, then
/// those of the second, and so on. A diagnostic that carries no data gives
/// none.
pub open spec fn actions_for(uri: Seq<char>, diagnostics: Seq<DiagnosticView>) -> Seq<
    CodeActionView,
>
    decreases diagnostics.len(),
{
    if diagnostics.len() == 0 {
        Seq::empty()
    } else {
        let earlier = actions_for(uri, diagnostics.drop_last());
        match diagnostics.last().data {
            Some(data) => earlier + quick_fixes(uri, data, data.fixes.len()),
            None => earlier,
        }
    }
}

/// The code actions for the diagnostics of a request: one quick fix for each
/// fix that a diagnostic carries.
pub fn handle_code_action(
    workspace: &mut Workspace,
    uri: &str,
    diagnostics: &Vec<Diagnostic>,
) -> (r: Result<Option<Vec<CodeAction>>, Error>)
    ensures
        final(workspace)@ == old(workspace)@,
        r matches Ok(Some(actions)) && action_views(actions@) == actions_for(
            uri@,
            views(diagnostics@),
        ),
{
    let mut out: Vec<CodeAction> = Vec::new();
    let mut i: usize = 0;
    while i < diagnostics.len()
        invariant
            i <= diagnostics.len(),
            action_views(out@) == actions_for(uri@, views(diagnostics@).take(i as int)),
        decreases diagnostics.len() - i,
    {
        let ghost upto = views(diagnostics@).take(i + 1);
        let ghost earlier = action_views(out@);
        proof {
            assert(upto.drop_last() =~= views(diagnostics@).take(i as int));
        }
        match &diagnostics[i].data {
            None => {},
            Some(data) => {
                let mut j: usize = 0;
                while j < data.fixes.len()
                    invariant
                        j <= data.fixes.len(),
                        action_views(out@) == earlier + quick_fixes(uri@, data@, j as nat),
                    decreases data.fixes.len() - j,
                {
                    let ghost so_far = action_views(out@);
                    let fix = &data.fixes[j];
                    let title = String::from_str("Change ").concat(data.original.as_str()).concat(
                        " to ",
                    ).concat(fix.as_str());
                    out.push(
                        CodeAction {
                            title,
                            kind: CodeActionKind::QuickFix,
                            uri: uri.to_owned(),
                            edit: TextEdit { range: data.range, new_text: fix.clone() },
                        },
                    );
                    proof {
                        assert(action_views(out@) =~= so_far.push(quick_fix(uri@, data@, fix@)));
                    }
                    j = j + 1;
                }
            },
        }
        i = i + 1;
    }
    proof {
        assert(views(diagnostics@).take(i as int) =~= views(diagnostics@));
    }
    Ok(Some(out))
}

/// The position encodings that a server can announce, by their names in the
/// protocol.
#[derive(Clone, Copy, Debug, PartialEq, Eq, Structural)]
pub enum PositionEncoding {
    /// `utf-8`
    Utf8,
    /// `utf-16`
    Utf16,
    /// `utf-32`
    Utf32,
}

/// How the editor reports the changes of a document.
#[derive(Clone, Copy, Debug, PartialEq, Eq, Structural)]
pub enum SyncKind {
    /// Not at all.
    Nothing,
    /// With the whole text.
    Full,
    /// With the ranges that changed.
    Incremental,
}

/// What the server tells the editor that it can do.
#[derive(Clone, Debug, PartialEq, Eq)]
pub struct Capabilities {
    pub position_encoding: PositionEncoding,
    pub open_close: bool,
    pub save_include_text: bool,
    pub change: SyncKind,
    pub document_symbol_provider: bool,
    pub workspace_symbol_provider: bool,
    pub references_provider: bool,
    pub completion_trigger_characters: Vec<String>,
    pub diagnostic_identifier: String,
    pub workspace_diagnostics: bool,
    pub code_action_provider: bool,
}

/// What the server can do: it announces the position encoding `utf-8`, and
/// counts the columns of a position in Unicode scalar values; it is told of
/// documents that are opened, closed
/// and saved, without their text on saving, and of their changes range by
/// range; it names symbols, references and code actions, completes behind a
/// double quote, and diagnoses under the name `spelgud`.
pub fn capabilities() -> (r: Capabilities)
    ensures
        r.position_encoding == PositionEncoding::Utf8,
        r.open_close,
        !r.save_include_text,
        r.change == SyncKind::Incremental,
        r.document_symbol_provider,
        r.workspace_symbol_provider,
        r.references_provider,
        texts(r.completion_trigger_characters@) == seq!["\""@],
        r.diagnostic_identifier@ == "spelgud"@,
        r.workspace_diagnostics,
        r.code_action_provider,
{
    let mut triggers: Vec<String> = Vec::new();
    triggers.push(String::from_str("\""));
    Capabilities {
        position_encoding: PositionEncoding::Utf8,
        open_close: true,
        save_include_text: false,
        change: SyncKind::Incremental,
        document_symbol_provider: true,
        workspace_symbol_provider: true,
        references_provider: true,
        completion_trigger_characters: triggers,
        diagnostic_identifier: String::from_str("spelgud"),
        workspace_diagnostics: true,
        code_action_provider: true,
    }
}

} // verus!
