//! An open document and the incremental edits that rewrite it.

use vstd::prelude::*;
use vstd::string::*;
use vstd::utf8::*;
use crate::encoding::{
    byte_len, in_memory, lemma_byte_len_concat, lemma_byte_len_monotone, lemma_byte_len_skip_take,
    lemma_encode_concat, lemma_prefix_boundary, split_text,
};
use crate::error::Error;
use crate::position::{Position, Range};
use crate::symbols::{list_symbols, listing, symbol_views, SymbolInformation};
use crate::text::{
    column, column_bytes, lemma_line_len_skip, lemma_line_start_skip, lemma_offset_bound,
    lemma_offset_monotone, lemma_resolve_scan, line_start, newlines, offset_of, resolve, skip_lines,
};

verus! {

/// One incremental change: the range to replace, and the replacement.
#[derive(Clone, Debug, PartialEq, Eq)]
pub struct Change {
    pub range: Option<Range>,
    pub text: String,
}

/// Why a batch of changes was turned down.
#[derive(Clone, Copy, Debug, PartialEq, Eq, Structural)]
pub enum EditError {
    /// A change names no range.
    MissingRange,
    /// A change names a range that ends before it starts.
    InvertedRange,
}

/// The text of one open document.
#[derive(Clone, Debug, PartialEq, Eq)]
pub struct File {
    text: String,
}

/// The index of the scalar value that `at` names in `text`.
pub open spec fn index_of(text: Seq<char>, at: Position) -> nat {
    offset_of(text, at.line as nat, at.character as nat)
}

/// `text` with the scalar values from `from` up to `to` replaced by `with`.
pub open spec fn splice(text: Seq<char>, from: int, to: int, with: Seq<char>) -> Seq<char>
    recommends
        0 <= from <= to <= text.len(),
{
    text.take(from) + with + text.skip(to)
}

/// `text` with `range` replaced by `with`.
pub open spec fn replaced(text: Seq<char>, range: Range, with: Seq<char>) -> Seq<char>
    recommends
        range.ordered(),
{
    splice(text, index_of(text, range.start) as int, index_of(text, range.end) as int, with)
}

/// A change can be applied when it names a range that does not end before it
/// starts.
pub open spec fn applicable(change: Change) -> bool {
    change.range matches Some(range) && range.ordered()
}

/// What is wrong with a change that cannot be applied.
pub open spec fn fault(change: Change) -> EditError {
    if change.range is None {
        EditError::MissingRange
    } else {
        EditError::InvertedRange
    }
}

/// A batch can be applied when each of its changes can.
pub open spec fn acceptable(changes: Seq<Change>) -> bool {
    forall|i: int| 0 <= i < changes.len() ==> applicable(#[trigger] changes[i])
}

/// What is wrong with the first change of `changes` that cannot be applied.
pub open spec fn first_fault(changes: Seq<Change>) -> EditError
    recommends
        !acceptable(changes),
    decreases changes.len(),
{
    if changes.len() > 0 && applicable(changes[0]) {
        first_fault(changes.drop_first())
    } else {
        fault(changes[0])
    }
}

/// The first change that cannot be applied decides the fault.
proof fn lemma_first_fault(changes: Seq<Change>, i: int)
    requires
        0 <= i < changes.len(),
        !applicable(changes[i]),
        acceptable(changes.take(i)),
    ensures
        first_fault(changes) == fault(changes[i]),
    decreases i,
{
    if i > 0 {
        assert(changes.take(i)[0] == changes[0]);
        let rest = changes.drop_first();
        assert forall|j: int| 0 <= j < i - 1 implies applicable(#[trigger] rest.take(i - 1)[j]) by {
            assert(rest.take(i - 1)[j] == changes.take(i)[j + 1]);
        }
        lemma_first_fault(rest, i - 1);
    }
}

/// `text` after the changes, applied in their order, each to what the ones
/// before it left.
pub open spec fn edited(text: Seq<char>, changes: Seq<Change>) -> Seq<char>
    recommends
        acceptable(changes),
    decreases changes.len(),
{
    if changes.len() == 0 {
        text
    } else {
        edited(replaced(text, changes[0].range->0, changes[0].text@), changes.drop_first())
    }
}

/// `text` with `range` replaced by `with`.
///
/// The start of the range is found by adding up the bytes of the lines before
/// its line and the bytes of its column within that line; the end by going on
/// from the start line by the lines that the range spans, and adding the bytes
/// of the end column within the end line.
pub fn rewrite(text: &str, range: Range, with: &str) -> (r: String)
    requires
        range.ordered(),
    ensures
        r@ == replaced(text@, range, with@),
{
    in_memory(text);
    let ghost first = line_start(text@, range.start.line as nat) as int;
    let ghost from = index_of(text@, range.start) as int;
    let ghost to = index_of(text@, range.end) as int;
    let span: u32 = range.end.line - range.start.line;
    proof {
        lemma_line_start_skip(text@, range.start.line as nat, span as nat);
        lemma_offset_bound(text@, range.end.line as nat, range.end.character as nat);
        lemma_offset_monotone(
            text@,
            range.start.line as nat,
            range.start.character as nat,
            range.end.line as nat,
            range.end.character as nat,
        );
    }
    let before_start = skip_lines(text, range.start.line);
    let (_, start_lines) = split_text(text, before_start, Ghost(first));
    let in_start = column_bytes(start_lines, range.start.character);
    let ghost last = line_start(start_lines@, span as nat) as int;
    proof {
        lemma_line_len_skip(text@, first, 0);
        lemma_byte_len_skip_take(text@, first, from - first);
    }
    let between = skip_lines(start_lines, span);
    let (_, end_lines) = split_text(start_lines, between, Ghost(last));
    let in_end = column_bytes(end_lines, range.end.character);
    proof {
        assert(end_lines@ =~= text@.skip(first + last));
        lemma_line_len_skip(text@, first + last, 0);
        lemma_byte_len_skip_take(text@, first, last);
        lemma_byte_len_skip_take(text@, first + last, to - (first + last));
    }
    let start_byte = before_start + in_start;
    let end_byte = before_start + between + in_end;
    let (head, _) = split_text(text, start_byte, Ghost(from));
    let (_, tail) = split_text(text, end_byte, Ghost(to));
    let mut out = String::from_str(head);
    out.append(with);
    out.append(tail);
    out
}

impl View for File {
    type V = Seq<char>;

    closed spec fn view(&self) -> Seq<char> {
        self.text@
    }
}

impl File {
    /// The bytes of the buffer: the UTF-8 encoding of its text.
    pub open spec fn bytes(&self) -> Seq<u8> {
        encode_utf8(self@)
    }

    /// A document that holds `text`.
    pub fn new(text: String) -> (r: Result<File, EditError>)
        ensures
            r matches Ok(file) && file@ == text@,
    {
        Ok(File { text })
    }

    /// Applies `changes` in their order, each to the text as the changes
    /// before it left it. A batch with a change that names no range, or a
    /// range that ends before it starts, is turned down as a whole and leaves
    /// the text as it was; the error is that of the first such change.
    pub fn edit(&mut self, changes: Vec<Change>) -> (r: Result<(), EditError>)
        ensures
            match r {
                Ok(()) => acceptable(changes@) && final(self)@ == edited(old(self)@, changes@),
                Err(e) => !acceptable(changes@) && final(self)@ == old(self)@ && e == first_fault(
                    changes@,
                ),
            },
            valid_utf8(final(self).bytes()),
    {
        let mut i: usize = 0;
        while i < changes.len()
            invariant
                i <= changes.len(),
                self@ == old(self)@,
                acceptable(changes@.take(i as int)),
            decreases changes.len() - i,
        {
            match changes[i].range {
                None => {
                    proof {
                        encode_utf8_valid_utf8(self@);
                        lemma_first_fault(changes@, i as int);
                    }
                    return Err(EditError::MissingRange);
                },
                Some(range) => {
                    if !range.is_ordered() {
                        proof {
                            encode_utf8_valid_utf8(self@);
                            lemma_first_fault(changes@, i as int);
                        }
                        return Err(EditError::InvertedRange);
                    }
                },
            }
            i = i + 1;
        }
        assert(changes@.take(i as int) =~= changes@);
        let mut done: usize = 0;
        while done < changes.len()
            invariant
                done <= changes.len(),
                acceptable(changes@),
                edited(old(self)@, changes@) == edited(self@, changes@.skip(done as int)),
            decreases changes.len() - done,
        {
            let change = &changes[done];
            let ghost rest = changes@.skip(done as int);
            assert(rest.drop_first() =~= changes@.skip(done + 1));
            match change.range {
                Some(range) => {
                    let next = rewrite(self.text.as_str(), range, change.text.as_str());
                    self.text = next;
                },
                None => {},
            }
            done = done + 1;
        }
        proof {
            encode_utf8_valid_utf8(self@);
        }
        Ok(())
    }

    /// The buffer as it stands.
    pub fn as_bytes(&self) -> (r: &[u8])
        ensures
            r@ == self.bytes(),
            valid_utf8(r@),
    {
        proof {
            encode_utf8_valid_utf8(self@);
        }
        self.text.as_str().as_bytes()
    }

    /// The text as it stands.
    pub fn text(&self) -> (r: &str)
        ensures
            r@ == self@,
    {
        self.text.as_str()
    }

    /// One symbol for each line of the document that is not empty: it is named
    /// by the line, is a piece of text, and covers the line. A document with
    /// a line that no position can name is turned down.
    pub fn symbols(&self, uri: &str) -> (r: Result<Vec<SymbolInformation>, Error>)
        ensures
            match r {
                Ok(found) => listing(uri@, self@) == Some(symbol_views(found@)),
                Err(e) => listing(uri@, self@) is None && e@ == crate::error::ErrorView::TooLarge(
                    uri@,
                ),
            },
    {
        match list_symbols(uri, self.text.as_str()) {
            Some(found) => Ok(found),
            None => Err(Error::TooLarge(uri.to_owned())),
        }
    }

    /// The byte offset in the buffer of the place that `at` names. It is a
    /// character boundary of the buffer.
    pub fn offset(&self, at: Position) -> (r: usize)
        ensures
            r == byte_len(self@.take(index_of(self@, at) as int)),
            is_char_boundary(self.bytes(), r as int),
    {
        proof {
            lemma_offset_bound(self@, at.line as nat, at.character as nat);
            lemma_prefix_boundary(self@, index_of(self@, at) as int);
        }
        resolve(self.text.as_str(), at.line, at.character)
    }
}

/// Inserting `with` at the place that `at` names makes the buffer longer by
/// exactly the bytes of `with`.
pub proof fn lemma_insert_grows(text: Seq<char>, at: Position, with: Seq<char>)
    ensures
        byte_len(replaced(text, (Range { start: at, end: at }), with)) == byte_len(text) + byte_len(
            with,
        ),
{
    let k = index_of(text, at) as int;
    lemma_offset_bound(text, at.line as nat, at.character as nat);
    assert(text =~= text.take(k) + text.skip(k));
    lemma_byte_len_concat(text.take(k), text.skip(k));
    lemma_byte_len_concat(text.take(k), with);
    lemma_byte_len_concat(text.take(k) + with, text.skip(k));
}

/// Inserting `with` at the place that `at` names, and then deleting the range
/// that the inserted text takes, gives the text back as it was. The inserted
/// text runs from `start` to `end`, the lines and columns that a scan of the
/// new text counts up to its first and behind its last scalar value.
pub proof fn lemma_insert_then_delete(
    text: Seq<char>,
    at: Position,
    with: Seq<char>,
    start: Position,
    end: Position,
)
    requires
        ({
            let k = index_of(text, at) as int;
            let grown = replaced(text, (Range { start: at, end: at }), with);
            &&& start.line == newlines(grown.take(k))
            &&& start.character == column(grown.take(k))
            &&& end.line == newlines(grown.take(k + with.len()))
            &&& end.character == column(grown.take(k + with.len()))
        }),
    ensures
        replaced(
            replaced(text, (Range { start: at, end: at }), with),
            (Range { start, end }),
            Seq::<char>::empty(),
        ) == text,
{
    let k = index_of(text, at) as int;
    let grown = replaced(text, (Range { start: at, end: at }), with);
    lemma_offset_bound(text, at.line as nat, at.character as nat);
    lemma_resolve_scan(grown, k);
    lemma_resolve_scan(grown, k + with.len());
}

/// An insertion that names its own place, `at` a place that a scan of the
/// text reaches, starts there: the inserted text then runs from `at`.
pub proof fn lemma_insert_starts_at(text: Seq<char>, k: int, at: Position, with: Seq<char>)
    requires
        0 <= k <= text.len(),
        at.line == newlines(text.take(k)),
        at.character == column(text.take(k)),
    ensures
        index_of(text, at) == k,
        ({
            let grown = replaced(text, (Range { start: at, end: at }), with);
            &&& at.line == newlines(grown.take(k))
            &&& at.character == column(grown.take(k))
        }),
{
    lemma_resolve_scan(text, k);
    let grown = replaced(text, (Range { start: at, end: at }), with);
    assert(grown.take(k) =~= text.take(k));
}

/// A change that replaces an empty range by nothing.
pub open spec fn idle(change: Change) -> bool {
    change.range matches Some(range) && range.start == range.end && change.text@.len() == 0
}

/// Changes that replace an empty range by nothing leave the text as it was,
/// however many of them a batch holds.
pub proof fn lemma_empty_changes_keep(text: Seq<char>, changes: Seq<Change>)
    requires
        forall|i: int| 0 <= i < changes.len() ==> idle(#[trigger] changes[i]),
    ensures
        acceptable(changes),
        edited(text, changes) == text,
    decreases changes.len(),
{
    if changes.len() > 0 {
        let first = changes[0];
        let at = first.range->0.start;
        lemma_offset_bound(text, at.line as nat, at.character as nat);
        assert(replaced(text, first.range->0, first.text@) =~= text);
        let rest = changes.drop_first();
        lemma_empty_changes_keep(text, rest);
    }
}

/// A replacement, seen on the bytes of the buffer: the bytes from the offset
/// of the start of the range up to the offset of its end give way to the
/// bytes of the new text. Both offsets are character boundaries, the first
/// not behind the second, and what results is valid UTF-8.
pub proof fn lemma_replaced_bytes(text: Seq<char>, range: Range, with: Seq<char>)
    requires
        range.ordered(),
    ensures
        ({
            let bytes = encode_utf8(text);
            let from = byte_len(text.take(index_of(text, range.start) as int)) as int;
            let to = byte_len(text.take(index_of(text, range.end) as int)) as int;
            &&& 0 <= from <= to <= bytes.len()
            &&& is_char_boundary(bytes, from)
            &&& is_char_boundary(bytes, to)
            &&& encode_utf8(replaced(text, range, with)) == bytes.subrange(0, from) + encode_utf8(
                with,
            ) + bytes.subrange(to, bytes.len() as int)
            &&& valid_utf8(encode_utf8(replaced(text, range, with)))
        }),
{
    let a = index_of(text, range.start) as int;
    let b = index_of(text, range.end) as int;
    lemma_offset_bound(text, range.end.line as nat, range.end.character as nat);
    lemma_offset_monotone(
        text,
        range.start.line as nat,
        range.start.character as nat,
        range.end.line as nat,
        range.end.character as nat,
    );
    lemma_prefix_boundary(text, a);
    lemma_prefix_boundary(text, b);
    lemma_byte_len_monotone(text, a, b);
    let bytes = encode_utf8(text);
    assert(text =~= text.take(a) + text.skip(a));
    assert(text =~= text.take(b) + text.skip(b));
    lemma_encode_concat(text.take(a), text.skip(a));
    lemma_encode_concat(text.take(b), text.skip(b));
    lemma_encode_concat(text.take(a), with);
    lemma_encode_concat(text.take(a) + with, text.skip(b));
    assert(bytes.subrange(byte_len(text.take(b)) as int, bytes.len() as int) =~= encode_utf8(
        text.skip(b),
    ));
    encode_utf8_valid_utf8(replaced(text, range, with));
}

/// Whatever the changes of a batch that can be applied, the buffer that they
/// leave is valid UTF-8.
pub proof fn lemma_edited_is_utf8(text: Seq<char>, changes: Seq<Change>)
    requires
        acceptable(changes),
    ensures
        valid_utf8(encode_utf8(edited(text, changes))),
{
    encode_utf8_valid_utf8(edited(text, changes));
}

} // verus!
