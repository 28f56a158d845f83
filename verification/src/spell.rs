//! What an interactive spell checker says, and what it means.
//!
//! The checker runs in pipe mode with terse output. For each line of text it
//! is given it answers with one line for each word it does not know, and
//! closes its answer with a blank line:
//!
//! ```text
//! & <word> <count> <offset>: <suggestion>, <suggestion>, ...
//! # <word> <offset>
//! ```
//!
//! Offsets count Unicode scalar values from the start of the line.

use vstd::prelude::*;
use vstd::std_specs::iter::IteratorSpec;
use vstd::string::*;
use crate::encoding::{
    byte_len, in_memory, lemma_byte_len_prefix, lemma_byte_len_step, split_text, utf8_width,
};
use crate::position::{Position, Range};
use crate::scan::{
    after, before, count_chars, number, occurs, parse_number, same_text, split_once, trim, trimmed,
};
use crate::text::{split_lines, texts};

verus! {

/// The spell checkers that speak the pipe protocol.
#[derive(Clone, Copy, Debug, PartialEq, Eq, Structural)]
pub enum Program {
    Aspell,
    Ispell,
    Hunspell,
}

/// The flag that puts a checker into pipe mode.
pub const PIPE_FLAG: &'static str = "-a";

/// The line that switches a checker to terse output, in which it is silent
/// about the words it knows.
pub const TERSE: &'static str = "!\n";

impl Program {
    /// The name under which the checker is installed.
    pub open spec fn name(self) -> Seq<char> {
        match self {
            Program::Aspell => "aspell"@,
            Program::Ispell => "ispell"@,
            Program::Hunspell => "hunspell"@,
        }
    }

    /// The command that starts the checker.
    pub fn command(&self) -> (r: &'static str)
        ensures
            r@ == self.name(),
    {
        match self {
            Program::Aspell => "aspell",
            Program::Ispell => "ispell",
            Program::Hunspell => "hunspell",
        }
    }
}

/// How grave a diagnostic is.
#[derive(Clone, Copy, Debug, PartialEq, Eq, Structural)]
pub enum Severity {
    Error,
    Warning,
    Information,
    Hint,
}

/// What a diagnostic carries for the quick fixes that may follow it: the word
/// as it stands, the words to put in its place, and where it stands.
#[derive(Clone, Debug, PartialEq, Eq)]
pub struct DiagnosticData {
    pub original: String,
    pub fixes: Vec<String>,
    pub range: Range,
}

/// A misspelt word in a document.
#[derive(Clone, Debug, PartialEq, Eq)]
pub struct Diagnostic {
    pub range: Range,
    pub severity: Severity,
    pub message: String,
    pub data: Option<DiagnosticData>,
}

/// The mathematical content of a [`DiagnosticData`].
pub struct DataView {
    pub original: Seq<char>,
    pub fixes: Seq<Seq<char>>,
    pub range: Range,
}

/// The mathematical content of a [`Diagnostic`].
pub struct DiagnosticView {
    pub range: Range,
    pub severity: Severity,
    pub message: Seq<char>,
    pub data: Option<DataView>,
}

impl View for DiagnosticData {
    type V = DataView;

    open spec fn view(&self) -> DataView {
        DataView { original: self.original@, fixes: texts(self.fixes@), range: self.range }
    }
}

impl View for Diagnostic {
    type V = DiagnosticView;

    open spec fn view(&self) -> DiagnosticView {
        DiagnosticView {
            range: self.range,
            severity: self.severity,
            message: self.message@,
            data: match self.data {
                Some(data) => Some(data@),
                None => None,
            },
        }
    }
}

/// The mathematical contents of some diagnostics.
pub open spec fn views(v: Seq<Diagnostic>) -> Seq<DiagnosticView> {
    Seq::new(v.len(), |i: int| v[i]@)
}

/// Why the answer of a checker could not be used.
#[derive(Clone, Debug, PartialEq, Eq)]
pub enum SpellError {
    /// A line of no known shape; it carries the line.
    UnexpectedLine(String),
    /// A line whose offset is no number; it carries the line.
    BadOffset(String),
    /// A line whose word would end behind the last column that can be
    /// named; it carries the line.
    RangeOverflow(String),
    /// The text has more lines than can be numbered.
    TooManyLines,
}

/// The mathematical content of a [`SpellError`].
pub enum SpellErrorView {
    UnexpectedLine(Seq<char>),
    BadOffset(Seq<char>),
    RangeOverflow(Seq<char>),
    TooManyLines,
}

impl View for SpellError {
    type V = SpellErrorView;

    open spec fn view(&self) -> SpellErrorView {
        match self {
            SpellError::UnexpectedLine(line) => SpellErrorView::UnexpectedLine(line@),
            SpellError::BadOffset(line) => SpellErrorView::BadOffset(line@),
            SpellError::RangeOverflow(line) => SpellErrorView::RangeOverflow(line@),
            SpellError::TooManyLines => SpellErrorView::TooManyLines,
        }
    }
}

/// One line of a checker's answer.
#[derive(Clone, Debug, PartialEq, Eq)]
pub enum Reply {
    /// The blank line that closes the answer for one line of text.
    End,
    /// A word that the checker does not know.
    Miss(Diagnostic),
}

/// The mathematical content of a [`Reply`].
pub enum ReplyView {
    End,
    Miss(DiagnosticView),
}

impl View for Reply {
    type V = ReplyView;

    open spec fn view(&self) -> ReplyView {
        match self {
            Reply::End => ReplyView::End,
            Reply::Miss(d) => ReplyView::Miss(d@),
        }
    }
}

/// Whether a comma stands at `at` in `s`, and a blank behind it.
pub open spec fn breaks_at(s: Seq<char>, at: int) -> bool {
    0 <= at && at + 1 < s.len() && s[at] == ',' && s[at + 1] == ' '
}

/// The index of the first comma that a blank follows, at or behind `from`, or
/// the length of `s` where there is none.
pub open spec fn find_break(s: Seq<char>, from: int) -> int
    decreases s.len() - from,
{
    if from < 0 || from >= s.len() {
        s.len() as int
    } else if breaks_at(s, from) {
        from
    } else {
        find_break(s, from + 1)
    }
}

/// The suggestions that `tail` lists: its pieces between commas that a blank
/// follows, each without the white space around it, the empty ones dropped.
pub open spec fn suggestions(tail: Seq<char>) -> Seq<Seq<char>>
    decreases tail.len(),
{
    let i = find_break(tail, 0);
    let head = trimmed(tail.take(i));
    let first = if head.len() > 0 {
        seq![head]
    } else {
        Seq::empty()
    };
    if 0 <= i && i + 2 <= tail.len() {
        first + suggestions(tail.skip(i + 2))
    } else {
        first
    }
}

/// The diagnostic for `word`, which the checker found at column `offset` of
/// line `row` and would replace by one of `fixes`; `line` is what the checker
/// said.
pub open spec fn miss(
    line: Seq<char>,
    word: Seq<char>,
    offset: Option<u32>,
    fixes: Seq<Seq<char>>,
    row: u32,
) -> Result<ReplyView, SpellErrorView> {
    match offset {
        None => Err(SpellErrorView::BadOffset(line)),
        Some(column) => if column + word.len() > u32::MAX {
            Err(SpellErrorView::RangeOverflow(line))
        } else {
            let range = Range {
                start: Position { line: row, character: column },
                end: Position { line: row, character: (column + word.len()) as u32 },
            };
            Ok(
                ReplyView::Miss(
                    DiagnosticView {
                        range,
                        severity: Severity::Error,
                        message: word,
                        data: Some(DataView { original: word, fixes, range }),
                    },
                ),
            )
        },
    }
}

/// What a line that begins with `& ` means; `body` is what follows that mark.
pub open spec fn suggested(line: Seq<char>, body: Seq<char>, row: u32) -> Result<
    ReplyView,
    SpellErrorView,
> {
    if !occurs(body, ' ') {
        Err(SpellErrorView::UnexpectedLine(line))
    } else if !occurs(after(body, ' '), ' ') {
        Err(SpellErrorView::UnexpectedLine(line))
    } else if !occurs(after(after(body, ' '), ' '), ':') {
        Err(SpellErrorView::UnexpectedLine(line))
    } else {
        let word = before(body, ' ');
        let place = after(after(body, ' '), ' ');
        miss(line, word, number(before(place, ':')), suggestions(after(place, ':')), row)
    }
}

/// What a line that begins with `# ` means; `body` is what follows that mark.
pub open spec fn unknown(line: Seq<char>, body: Seq<char>, row: u32) -> Result<
    ReplyView,
    SpellErrorView,
> {
    if !occurs(body, ' ') {
        Err(SpellErrorView::UnexpectedLine(line))
    } else {
        miss(line, before(body, ' '), number(trimmed(after(body, ' '))), Seq::empty(), row)
    }
}

/// What `line` means as an answer about line `row` of a text.
pub open spec fn reading(line: Seq<char>, row: u32) -> Result<ReplyView, SpellErrorView> {
    if line == seq!['\n'] {
        Ok(ReplyView::End)
    } else if !occurs(line, ' ') {
        Err(SpellErrorView::UnexpectedLine(line))
    } else if before(line, ' ') == seq!['&'] {
        suggested(line, after(line, ' '), row)
    } else if before(line, ' ') == seq!['#'] {
        unknown(line, after(line, ' '), row)
    } else {
        Err(SpellErrorView::UnexpectedLine(line))
    }
}

/// The mathematical content of what reading a line gave.
pub open spec fn outcome(r: Result<Reply, SpellError>) -> Result<ReplyView, SpellErrorView> {
    match r {
        Ok(reply) => Ok(reply@),
        Err(e) => Err(e@),
    }
}

/// The search ends at or behind where it began, and within the text.
proof fn lemma_find_break_bound(s: Seq<char>, from: int)
    requires
        0 <= from <= s.len(),
    ensures
        from <= find_break(s, from) <= s.len(),
    decreases s.len() - from,
{
    if from < s.len() && !breaks_at(s, from) {
        lemma_find_break_bound(s, from + 1);
    }
}

/// A stretch without a comma that a blank follows does not stop the search.
proof fn lemma_find_break_run(s: Seq<char>, from: int, n: int)
    requires
        0 <= from,
        0 <= n,
        from + n <= s.len(),
        forall|j: int| from <= j < from + n ==> !breaks_at(s, j),
    ensures
        find_break(s, from) == find_break(s, from + n),
    decreases n,
{
    if n > 0 {
        lemma_find_break_run(s, from + 1, n - 1);
    }
}

/// Cuts `s` at its first comma that a blank follows: what stands before the
/// comma and what stands behind the blank, or nothing where `s` holds no such
/// comma.
fn split_break<'a>(s: &'a str) -> (r: Option<(&'a str, &'a str)>)
    ensures
        match r {
            Some((head, tail)) => find_break(s@, 0) + 2 <= s@.len() && head@ == s@.take(
                find_break(s@, 0),
            ) && tail@ == s@.skip(find_break(s@, 0) + 2),
            None => find_break(s@, 0) == s@.len(),
        },
{
    broadcast use vstd::string::group_string_axioms;

    in_memory(s);
    let mut bytes: usize = 0;
    let mut before_last: usize = 0;
    let mut after_comma: bool = false;
    let ghost mut k: int = 0;
    let mut it = s.chars();
    loop
        invariant
            0 <= k <= s@.len(),
            it.remaining() == s@.skip(k),
            bytes == byte_len(s@.take(k)),
            after_comma ==> k >= 1 && s@[k - 1] == ',' && before_last == byte_len(s@.take(k - 1)),
            !after_comma && k >= 1 ==> s@[k - 1] != ',',
            forall|j: int| 0 <= j < k - 1 ==> !breaks_at(s@, j),
            it.obeys_prophetic_iter_laws(),
            it.decrease() is Some,
            byte_len(s@) <= usize::MAX,
        decreases it.decrease()->0,
    {
        match it.next() {
            None => {
                proof {
                    lemma_find_break_run(s@, 0, k);
                }
                return None;
            },
            Some(x) => {
                proof {
                    lemma_byte_len_step(s@, k);
                    lemma_byte_len_prefix(s@, k + 1);
                }
                let next = bytes + utf8_width(x);
                if after_comma && x == ' ' {
                    proof {
                        lemma_find_break_run(s@, 0, k - 1);
                    }
                    let (head, _) = split_text(s, before_last, Ghost(k - 1));
                    let (_, tail) = split_text(s, next, Ghost(k + 1));
                    return Some((head, tail));
                }
                after_comma = x == ',';
                before_last = bytes;
                bytes = next;
                proof {
                    k = k + 1;
                }
            },
        }
    }
}

/// The suggestions that `tail` lists.
pub fn read_suggestions(tail: &str) -> (r: Vec<String>)
    ensures
        texts(r@) == suggestions(tail@),
{
    let mut out: Vec<String> = Vec::new();
    let mut rest: &str = tail;
    loop
        invariant_except_break
            texts(out@) + suggestions(rest@) == suggestions(tail@),
        ensures
            texts(out@) == suggestions(tail@),
        decreases rest@.len(),
    {
        let ghost cut = find_break(rest@, 0);
        proof {
            lemma_find_break_bound(rest@, 0);
        }
        match split_break(rest) {
            Some((head, next)) => {
                let piece = trim(head);
                if !piece.is_empty() {
                    out.push(piece.to_owned());
                }
                rest = next;
            },
            None => {
                proof {
                    assert(rest@.take(cut) =~= rest@);
                }
                let piece = trim(rest);
                if !piece.is_empty() {
                    out.push(piece.to_owned());
                }
                break ;
            },
        }
    }
    out
}

/// The diagnostic for `word` at column `offset` of line `row`.
fn report(line: &str, word: &str, offset: Option<u32>, fixes: Vec<String>, row: u32) -> (r: Result<
    Reply,
    SpellError,
>)
    ensures
        outcome(r) == miss(line@, word@, offset, texts(fixes@), row),
{
    match offset {
        None => Err(SpellError::BadOffset(line.to_owned())),
        Some(column) => {
            let width = count_chars(word);
            let room: u32 = u32::MAX - column;
            if width > room as usize {
                Err(SpellError::RangeOverflow(line.to_owned()))
            } else {
                let range = Range {
                    start: Position { line: row, character: column },
                    end: Position { line: row, character: column + width as u32 },
                };
                Ok(
                    Reply::Miss(
                        Diagnostic {
                            range,
                            severity: Severity::Error,
                            message: word.to_owned(),
                            data: Some(
                                DiagnosticData { original: word.to_owned(), fixes, range },
                            ),
                        },
                    ),
                )
            }
        },
    }
}

/// Reads a line that begins with `& `; `body` is what follows that mark.
fn read_suggested(line: &str, body: &str, row: u32) -> (r: Result<Reply, SpellError>)
    ensures
        outcome(r) == suggested(line@, body@, row),
{
    match split_once(body, ' ') {
        None => Err(SpellError::UnexpectedLine(line.to_owned())),
        Some((word, rest)) => match split_once(rest, ' ') {
            None => Err(SpellError::UnexpectedLine(line.to_owned())),
            Some((_, place)) => match split_once(place, ':') {
                None => Err(SpellError::UnexpectedLine(line.to_owned())),
                Some((offset, tail)) => {
                    let column = parse_number(offset);
                    let fixes = read_suggestions(tail);
                    report(line, word, column, fixes, row)
                },
            },
        },
    }
}

/// Reads a line that begins with `# `; `body` is what follows that mark.
fn read_unknown(line: &str, body: &str, row: u32) -> (r: Result<Reply, SpellError>)
    ensures
        outcome(r) == unknown(line@, body@, row),
{
    match split_once(body, ' ') {
        None => Err(SpellError::UnexpectedLine(line.to_owned())),
        Some((word, offset)) => {
            let column = parse_number(trim(offset));
            let fixes: Vec<String> = Vec::new();
            proof {
                assert(texts(fixes@) =~= Seq::<Seq<char>>::empty());
            }
            report(line, word, column, fixes, row)
        },
    }
}

/// Reads one line of a checker's answer about line `row` of a text.
pub fn parse_reply(line: &str, row: u32) -> (r: Result<Reply, SpellError>)
    ensures
        outcome(r) == reading(line@, row),
{
    proof {
        reveal_strlit("\n");
        reveal_strlit("&");
        reveal_strlit("#");
        assert("\n"@ =~= seq!['\n']);
        assert("&"@ =~= seq!['&']);
        assert("#"@ =~= seq!['#']);
    }
    if same_text(line, "\n") {
        return Ok(Reply::End);
    }
    match split_once(line, ' ') {
        None => Err(SpellError::UnexpectedLine(line.to_owned())),
        Some((mark, body)) => {
            if same_text(mark, "&") {
                read_suggested(line, body, row)
            } else if same_text(mark, "#") {
                read_unknown(line, body, row)
            } else {
                Err(SpellError::UnexpectedLine(line.to_owned()))
            }
        },
    }
}

/// What the program around the library is to do next for a diagnosis.
#[derive(Clone, Debug, PartialEq, Eq)]
pub enum Action {
    /// Write this text to the checker and flush; then read one line of its
    /// answer and hand it to `reply`.
    Ask(String),
    /// Read one more line of the answer and hand it to `reply`.
    Read,
    /// The diagnosis is complete: these are the misspelt words, in the order
    /// of the document.
    Done(Vec<Diagnostic>),
    /// The diagnosis failed and gave nothing.
    Fail(SpellError),
}

/// The mathematical content of an [`Action`].
pub enum ActionView {
    Ask(Seq<char>),
    Read,
    Done(Seq<DiagnosticView>),
    Fail(SpellErrorView),
}

impl View for Action {
    type V = ActionView;

    open spec fn view(&self) -> ActionView {
        match self {
            Action::Ask(text) => ActionView::Ask(text@),
            Action::Read => ActionView::Read,
            Action::Done(found) => ActionView::Done(views(found@)),
            Action::Fail(e) => ActionView::Fail(e@),
        }
    }
}

/// A diagnosis under way: the lines of the text, the line that the checker
/// was asked about last, and the words it has found so far.
struct Exchange {
    lines: Vec<String>,
    row: usize,
    found: Vec<Diagnostic>,
}

/// The mathematical content of a diagnosis under way.
pub struct ExchangeView {
    pub lines: Seq<Seq<char>>,
    pub row: nat,
    pub found: Seq<DiagnosticView>,
}

/// The conversation with one spell checker: which checker it is, and the
/// diagnosis that is under way, if one is.
pub struct Process {
    program: Program,
    exchange: Option<Exchange>,
}

/// The mathematical content of a [`Process`].
pub struct ProcessView {
    pub program: Program,
    pub exchange: Option<ExchangeView>,
}

/// A conversation in which no diagnosis is under way.
pub open spec fn idle(program: Program) -> ProcessView {
    ProcessView { program, exchange: None }
}

/// The first line at or behind `from` that the checker is to be asked about,
/// or that can no longer be numbered; the number of lines where there is
/// none. Empty lines are passed over.
pub open spec fn next_stop(lines: Seq<Seq<char>>, from: nat) -> nat
    decreases lines.len() - from,
{
    if from >= lines.len() {
        lines.len()
    } else if from > u32::MAX || lines[from as int].len() > 0 {
        from
    } else {
        next_stop(lines, from + 1)
    }
}

/// The diagnosis goes on from line `from`: the checker is asked about the
/// next line that is not empty; where none is left, the diagnosis is complete.
pub open spec fn proceed(
    program: Program,
    lines: Seq<Seq<char>>,
    from: nat,
    found: Seq<DiagnosticView>,
) -> (ProcessView, ActionView) {
    let row = next_stop(lines, from);
    if row >= lines.len() {
        (idle(program), ActionView::Done(found))
    } else if row > u32::MAX {
        (idle(program), ActionView::Fail(SpellErrorView::TooManyLines))
    } else {
        (
            ProcessView { program, exchange: Some(ExchangeView { lines, row, found }) },
            ActionView::Ask(lines[row as int] + seq!['\n']),
        )
    }
}

/// A diagnosis of `text` begins.
pub open spec fn begin(program: Program, text: Seq<char>) -> (ProcessView, ActionView) {
    proceed(program, crate::text::lines_of(text), 0, Seq::empty())
}

/// The checker has said `line`. A line that nobody asked for, or one of no
/// known shape, ends the diagnosis without a result; a misspelt word is kept
/// and more is read; the blank line moves the diagnosis on.
pub open spec fn answer(p: ProcessView, line: Seq<char>) -> (ProcessView, ActionView) {
    match p.exchange {
        None => (p, ActionView::Fail(SpellErrorView::UnexpectedLine(line))),
        Some(e) => match reading(line, e.row as u32) {
            Ok(ReplyView::End) => proceed(p.program, e.lines, e.row + 1, e.found),
            Ok(ReplyView::Miss(d)) => (
                ProcessView {
                    program: p.program,
                    exchange: Some(
                        ExchangeView { lines: e.lines, row: e.row, found: e.found.push(d) },
                    ),
                },
                ActionView::Read,
            ),
            Err(err) => (idle(p.program), ActionView::Fail(err)),
        },
    }
}

impl Exchange {
    spec fn content(&self) -> ExchangeView {
        ExchangeView { lines: texts(self.lines@), row: self.row as nat, found: views(self.found@) }
    }
}

impl View for Process {
    type V = ProcessView;

    closed spec fn view(&self) -> ProcessView {
        ProcessView {
            program: self.program,
            exchange: match self.exchange {
                Some(e) => Some(e.content()),
                None => None,
            },
        }
    }
}

/// Passes over the empty lines from `from` on and says what is to be done.
fn advance(program: Program, lines: Vec<String>, from: usize, found: Vec<Diagnostic>) -> (r: (
    Process,
    Action,
))
    requires
        from <= lines.len(),
    ensures
        (r.0@, r.1@) == proceed(program, texts(lines@), from as nat, views(found@)),
{
    let mut i: usize = from;
    while i < lines.len()
        invariant
            from <= i <= lines.len(),
            next_stop(texts(lines@), from as nat) == next_stop(texts(lines@), i as nat),
        decreases lines.len() - i,
    {
        if i > u32::MAX as usize {
            return (Process { program, exchange: None }, Action::Fail(SpellError::TooManyLines));
        }
        if !lines[i].as_str().is_empty() {
            let mut ask = lines[i].clone();
            ask.append("\n");
            proof {
                reveal_strlit("\n");
                assert("\n"@ =~= seq!['\n']);
            }
            let next = Process { program, exchange: Some(Exchange { lines, row: i, found }) };
            return (next, Action::Ask(ask));
        }
        i = i + 1;
    }
    (Process { program, exchange: None }, Action::Done(found))
}

impl Process {
    #[verifier::type_invariant]
    spec fn inv(self) -> bool {
        match self.exchange {
            Some(e) => e.row < e.lines.len() && e.row <= u32::MAX,
            None => true,
        }
    }

    /// The conversation with `program`, before any diagnosis.
    pub fn new(program: Program) -> (r: Process)
        ensures
            r@ == idle(program),
    {
        Process { program, exchange: None }
    }

    /// The checker that this conversation is with.
    pub fn program(&self) -> (r: Program)
        ensures
            r == self@.program,
    {
        self.program
    }

    /// Whether a diagnosis is under way, and the next line of the checker is
    /// awaited.
    pub fn listening(&self) -> (r: bool)
        ensures
            r == self@.exchange is Some,
    {
        self.exchange.is_some()
    }

    /// Begins the diagnosis of `text`, and drops the one under way, if any.
    pub fn diags(&mut self, text: &str) -> (action: Action)
        ensures
            (final(self)@, action@) == begin(old(self)@.program, text@),
    {
        let lines = split_lines(text);
        let found: Vec<Diagnostic> = Vec::new();
        proof {
            assert(views(found@) =~= Seq::<DiagnosticView>::empty());
        }
        let (next, action) = advance(self.program, lines, 0, found);
        *self = next;
        action
    }

    /// Takes the next line that the checker said.
    pub fn reply(&mut self, line: &str) -> (action: Action)
        ensures
            (final(self)@, action@) == answer(old(self)@, line@),
    {
        proof {
            use_type_invariant(&*self);
        }
        let program = self.program;
        let mut taken: Option<Exchange> = None;
        core::mem::swap(&mut self.exchange, &mut taken);
        match taken {
            None => Action::Fail(SpellError::UnexpectedLine(line.to_owned())),
            Some(exchange) => {
                let Exchange { lines, row, found } = exchange;
                let mut found = found;
                match parse_reply(line, row as u32) {
                    Ok(Reply::End) => {
                        let (next, action) = advance(program, lines, row + 1, found);
                        *self = next;
                        action
                    },
                    Ok(Reply::Miss(d)) => {
                        let ghost before = views(found@);
                        found.push(d);
                        proof {
                            assert(views(found@) =~= before.push(d@));
                        }
                        self.exchange = Some(Exchange { lines, row, found });
                        Action::Read
                    },
                    Err(e) => Action::Fail(e),
                }
            },
        }
    }

    /// Drops the diagnosis under way, if any.
    pub fn abort(&mut self)
        ensures
            final(self)@ == idle(old(self)@.program),
    {
        self.exchange = None;
    }
}

} // verus!
