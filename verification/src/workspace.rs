//! The documents that the editor has open, and the spell checker that reads
//! them.

use vstd::prelude::*;
use vstd::hash_map::StringHashMap;
use vstd::string::*;
use crate::error::{Error, ErrorView};
use crate::file::{acceptable, edited, first_fault, Change, File};
use crate::spell::{answer, begin, idle, Action, ActionView, Process, ProcessView, Program};
use crate::symbols::{listing, symbol_views, SymbolInformation};

verus! {

/// The open documents by their URI, the conversation with the spell checker,
/// and the document that is being opened while the checker reads it.
pub struct Workspace {
    files: StringHashMap<File>,
    proc: Process,
    opening: Option<(String, String)>,
}

/// The mathematical content of a [`Workspace`]: the text of each open
/// document by its URI, the conversation with the checker, and the URI and
/// text of the document that is being opened.
pub struct WorkspaceView {
    pub files: Map<Seq<char>, Seq<char>>,
    pub proc: ProcessView,
    pub opening: Option<(Seq<char>, Seq<char>)>,
}

/// The texts of some documents.
pub open spec fn contents(files: Map<Seq<char>, File>) -> Map<Seq<char>, Seq<char>> {
    files.map_values(|f: File| f@)
}

/// A workspace without documents.
pub open spec fn fresh() -> WorkspaceView {
    WorkspaceView { files: Map::empty(), proc: idle(Program::Aspell), opening: None }
}

/// What a step of a diagnosis leaves of the workspace. A completed diagnosis
/// puts the document that was being opened among the open ones; a failed one
/// drops it.
pub open spec fn settle(
    files: Map<Seq<char>, Seq<char>>,
    opening: Option<(Seq<char>, Seq<char>)>,
    step: (ProcessView, ActionView),
) -> (WorkspaceView, ActionView) {
    match step.1 {
        ActionView::Done(_) => (
            WorkspaceView {
                files: match opening {
                    Some((uri, text)) => files.insert(uri, text),
                    None => files,
                },
                proc: step.0,
                opening: None,
            },
            step.1,
        ),
        ActionView::Fail(_) => (WorkspaceView { files, proc: step.0, opening: None }, step.1),
        _ => (WorkspaceView { files, proc: step.0, opening }, step.1),
    }
}

/// The document `uri` with the text `text` is opened: the checker reads the
/// text as it was handed in. A diagnosis that was under way is dropped, and
/// with it the document that was being opened.
pub open spec fn opened(w: WorkspaceView, uri: Seq<char>, text: Seq<char>) -> (
    WorkspaceView,
    ActionView,
) {
    settle(w.files, Some((uri, text)), begin(w.proc.program, text))
}

/// The document `uri` is saved: the checker reads its text as it stands. A
/// diagnosis that was under way is dropped, and with it the document that was
/// being opened. A document that is not open is turned down.
pub open spec fn saved(w: WorkspaceView, uri: Seq<char>) -> Result<
    (WorkspaceView, ActionView),
    ErrorView,
> {
    if w.files.contains_key(uri) {
        Ok(settle(w.files, None, begin(w.proc.program, w.files[uri])))
    } else {
        Err(ErrorView::NotLoaded(uri))
    }
}

/// The checker has said `line`.
pub open spec fn heard(w: WorkspaceView, line: Seq<char>) -> (WorkspaceView, ActionView) {
    settle(w.files, w.opening, answer(w.proc, line))
}

/// The document `uri` after `changes`. A document that is not open is
/// turned down, and so is a batch that cannot be applied.
pub open spec fn changed(w: WorkspaceView, uri: Seq<char>, changes: Seq<Change>) -> Result<
    WorkspaceView,
    ErrorView,
> {
    if !w.files.contains_key(uri) {
        Err(ErrorView::NotLoaded(uri))
    } else if !acceptable(changes) {
        Err(ErrorView::Edit(first_fault(changes)))
    } else {
        Ok(
            WorkspaceView {
                files: w.files.insert(uri, edited(w.files[uri], changes)),
                proc: w.proc,
                opening: w.opening,
            },
        )
    }
}

impl View for Workspace {
    type V = WorkspaceView;

    closed spec fn view(&self) -> WorkspaceView {
        WorkspaceView {
            files: contents(self.files@),
            proc: self.proc@,
            opening: match self.opening {
                Some((uri, text)) => Some((uri@, text@)),
                None => None,
            },
        }
    }
}

impl Workspace {
    /// A workspace without documents, for the checker `aspell`.
    pub fn new() -> (r: Workspace)
        ensures
            r@ == fresh(),
    {
        let r = Workspace {
            files: StringHashMap::new(),
            proc: Process::new(Program::Aspell),
            opening: None,
        };
        proof {
            assert(contents(r.files@) =~= Map::<Seq<char>, Seq<char>>::empty());
        }
        r
    }

    /// The checker that reads the documents.
    pub fn program(&self) -> (r: Program)
        ensures
            r == self@.proc.program,
    {
        self.proc.program()
    }

    /// Whether a diagnosis is under way, and the next line of the checker is
    /// awaited.
    pub fn listening(&self) -> (r: bool)
        ensures
            r == self@.proc.exchange is Some,
    {
        self.proc.listening()
    }

    /// Puts `file` among the open documents, under `uri`.
    fn put(&mut self, uri: String, file: File)
        ensures
            final(self)@ == (WorkspaceView {
                files: old(self)@.files.insert(uri@, file@),
                proc: old(self)@.proc,
                opening: old(self)@.opening,
            }),
    {
        let ghost before = self.files@;
        self.files.insert(uri, file);
        proof {
            assert(contents(self.files@) =~= contents(before).insert(uri@, file@));
        }
    }

    /// Keeps what a step of a diagnosis leaves.
    fn keep(&mut self, action: &Action)
        ensures
            (final(self)@, action@) == settle(
                old(self)@.files,
                old(self)@.opening,
                (old(self)@.proc, action@),
            ),
    {
        match action {
            Action::Done(_) => {
                let mut taken: Option<(String, String)> = None;
                core::mem::swap(&mut self.opening, &mut taken);
                if let Some((uri, text)) = taken {
                    if let Ok(file) = File::new(text) {
                        self.put(uri, file);
                    }
                }
            },
            Action::Fail(_) => {
                self.opening = None;
            },
            _ => {},
        }
    }

    /// Opens the document `uri` with the text `text`, in place of any that is
    /// open under that URI, and begins its diagnosis. The document is among
    /// the open ones once the diagnosis is complete.
    pub fn open(&mut self, uri: String, text: String) -> (action: Action)
        ensures
            (final(self)@, action@) == opened(old(self)@, uri@, text@),
    {
        let action = self.proc.diags(text.as_str());
        self.opening = Some((uri, text));
        self.keep(&action);
        action
    }

    /// Begins the diagnosis of the document `uri` as it stands.
    pub fn save(&mut self, uri: String) -> (r: Result<Action, Error>)
        ensures
            match r {
                Ok(action) => saved(old(self)@, uri@) == Ok::<_, ErrorView>(
                    (final(self)@, action@),
                ),
                Err(e) => saved(old(self)@, uri@) == Err::<(WorkspaceView, ActionView), _>(e@)
                    && final(self)@ == old(self)@,
            },
    {
        match self.files.get(uri.as_str()) {
            None => Err(Error::NotLoaded(uri)),
            Some(file) => {
                let action = self.proc.diags(file.text());
                self.opening = None;
                self.keep(&action);
                Ok(action)
            },
        }
    }

    /// Takes the next line that the checker said.
    pub fn reply(&mut self, line: &str) -> (action: Action)
        ensures
            (final(self)@, action@) == heard(old(self)@, line@),
    {
        let action = self.proc.reply(line);
        self.keep(&action);
        action
    }

    /// Drops the diagnosis under way, if any, and the document that was
    /// being opened.
    pub fn abort(&mut self)
        ensures
            final(self)@ == (WorkspaceView {
                files: old(self)@.files,
                proc: idle(old(self)@.proc.program),
                opening: None,
            }),
    {
        self.proc.abort();
        self.opening = None;
    }

    /// Applies `changes` to the document `uri`.
    pub fn edit(&mut self, uri: &str, changes: Vec<Change>) -> (r: Result<(), Error>)
        ensures
            match r {
                Ok(()) => changed(old(self)@, uri@, changes@) == Ok::<_, ErrorView>(final(self)@),
                Err(e) => changed(old(self)@, uri@, changes@) == Err::<WorkspaceView, _>(e@)
                    && final(self)@ == old(self)@,
            },
    {
        match self.files.get(uri) {
            None => Err(Error::NotLoaded(uri.to_owned())),
            Some(found) => match File::new(found.text().to_owned()) {
                Ok(file) => {
                    let mut file = file;
                    match file.edit(changes) {
                        Ok(()) => {
                            self.put(uri.to_owned(), file);
                            Ok(())
                        },
                        Err(e) => Err(Error::Edit(e)),
                    }
                },
                Err(e) => Err(Error::Edit(e)),
            },
        }
    }

    /// The completions at a place of the document `uri`: there are none.
    pub fn complete(&self, uri: &str, line: usize, character: usize) -> (r: Result<
        Option<Vec<String>>,
        Error,
    >)
        ensures
            r matches Ok(None),
    {
        Ok(None)
    }

    /// The symbols of the document `uri`: one for each of its lines that is
    /// not empty.
    pub fn symbols(&self, uri: &str) -> (r: Result<Vec<SymbolInformation>, Error>)
        ensures
            match r {
                Ok(found) => self@.files.contains_key(uri@) && listing(uri@, self@.files[uri@])
                    == Some(symbol_views(found@)),
                Err(e) => if self@.files.contains_key(uri@) {
                    listing(uri@, self@.files[uri@]) is None && e@ == ErrorView::TooLarge(uri@)
                } else {
                    e@ == ErrorView::NotLoaded(uri@)
                },
            },
    {
        match self.files.get(uri) {
            None => Err(Error::NotLoaded(uri.to_owned())),
            Some(file) => file.symbols(uri),
        }
    }

    /// The text of the document `uri` as it stands, if it is open.
    pub fn text(&self, uri: &str) -> (r: Option<&str>)
        ensures
            match r {
                Some(text) => self@.files.contains_key(uri@) && text@ == self@.files[uri@],
                None => !self@.files.contains_key(uri@),
            },
    {
        match self.files.get(uri) {
            None => None,
            Some(file) => Some(file.text()),
        }
    }
}

} // verus!
