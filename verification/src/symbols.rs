//! The symbols of a document: its lines.

use vstd::prelude::*;
use vstd::string::*;
use crate::position::{Position, Range};
use crate::scan::count_chars;
use crate::text::{lines_of, split_lines, texts};

verus! {

/// What kind of thing a symbol is.
#[derive(Clone, Copy, Debug, PartialEq, Eq, Structural)]
pub enum SymbolKind {
    /// A piece of text.
    String,
}

/// A named place in a document.
#[derive(Clone, Debug, PartialEq, Eq)]
pub struct SymbolInformation {
    pub name: String,
    pub kind: SymbolKind,
    pub uri: String,
    pub range: Range,
}

/// The mathematical content of a [`SymbolInformation`].
pub struct SymbolView {
    pub name: Seq<char>,
    pub kind: SymbolKind,
    pub uri: Seq<char>,
    pub range: Range,
}

impl View for SymbolInformation {
    type V = SymbolView;

    open spec fn view(&self) -> SymbolView {
        SymbolView { name: self.name@, kind: self.kind, uri: self.uri@, range: self.range }
    }
}

/// The mathematical contents of some symbols.
pub open spec fn symbol_views(v: Seq<SymbolInformation>) -> Seq<SymbolView> {
    Seq::new(v.len(), |i: int| v[i]@)
}

/// The symbol for line `row` of the document `uri`, which reads `line`: it is
/// named by the line and covers it from its first column to its last.
pub open spec fn symbol(uri: Seq<char>, row: nat, line: Seq<char>) -> SymbolView {
    SymbolView {
        name: line,
        kind: SymbolKind::String,
        uri,
        range: Range {
            start: Position { line: row as u32, character: 0 },
            end: Position { line: row as u32, character: line.len() as u32 },
        },
    }
}

/// One symbol for each of `lines` that is not empty, in their order.
pub open spec fn symbols_of(uri: Seq<char>, lines: Seq<Seq<char>>) -> Seq<SymbolView>
    decreases lines.len(),
{
    if lines.len() == 0 {
        Seq::empty()
    } else {
        let earlier = symbols_of(uri, lines.drop_last());
        if lines.last().len() > 0 {
            earlier.push(symbol(uri, (lines.len() - 1) as nat, lines.last()))
        } else {
            earlier
        }
    }
}

/// Whether each of `lines` that is not empty can be named by a position:
/// neither its number nor its length is more than 32 bits can hold.
pub open spec fn nameable(lines: Seq<Seq<char>>) -> bool {
    forall|i: int|
        0 <= i < lines.len() && (#[trigger] lines[i]).len() > 0 ==> i <= u32::MAX && lines[i].len()
            <= u32::MAX
}

/// The symbols of the document `uri` with the text `text`, or nothing where
/// a line of it cannot be named by a position.
pub open spec fn listing(uri: Seq<char>, text: Seq<char>) -> Option<Seq<SymbolView>> {
    if nameable(lines_of(text)) {
        Some(symbols_of(uri, lines_of(text)))
    } else {
        None
    }
}

/// The symbols of the document `uri` with the text `text`.
pub fn list_symbols(uri: &str, text: &str) -> (r: Option<Vec<SymbolInformation>>)
    ensures
        match r {
            Some(found) => listing(uri@, text@) == Some(symbol_views(found@)),
            None => listing(uri@, text@) is None,
        },
{
    let lines = split_lines(text);
    let mut out: Vec<SymbolInformation> = Vec::new();
    let mut i: usize = 0;
    while i < lines.len()
        invariant
            i <= lines.len(),
            texts(lines@) == lines_of(text@),
            nameable(texts(lines@).take(i as int)),
            symbol_views(out@) == symbols_of(uri@, texts(lines@).take(i as int)),
        decreases lines.len() - i,
    {
        let ghost upto = texts(lines@).take(i + 1);
        proof {
            assert(upto.drop_last() =~= texts(lines@).take(i as int));
            assert(upto.last() == lines@[i as int]@);
        }
        let width = count_chars(lines[i].as_str());
        if width > 0 {
            if i > u32::MAX as usize || width > u32::MAX as usize {
                return None;
            }
            let range = Range {
                start: Position { line: i as u32, character: 0 },
                end: Position { line: i as u32, character: width as u32 },
            };
            out.push(
                SymbolInformation {
                    name: lines[i].clone(),
                    kind: SymbolKind::String,
                    uri: uri.to_owned(),
                    range,
                },
            );
        }
        i = i + 1;
    }
    proof {
        assert(texts(lines@).take(i as int) =~= texts(lines@));
    }
    Some(out)
}

} // verus!
