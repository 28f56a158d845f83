//! The lines of a text: where they begin, how long they are, and which place
//! a line and a column name.

use vstd::prelude::*;
use vstd::std_specs::iter::IteratorSpec;
use crate::encoding::{
    byte_len, in_memory, lemma_byte_len_monotone, lemma_byte_len_prefix, lemma_byte_len_skip_take,
    lemma_byte_len_step, split_text, utf8_width,
};

verus! {

/// The number of scalar values in the line that begins at `from`, its
/// closing `\n` included; zero at the end of the text.
pub open spec fn line_len(text: Seq<char>, from: int) -> nat
    decreases text.len() - from,
{
    if from < 0 || from >= text.len() {
        0
    } else if text[from] == '\n' {
        1
    } else {
        1 + line_len(text, from + 1)
    }
}

/// The index of the scalar value at which line `line` begins: the sum of the
/// lengths of the lines before it. Past the last line it is the length of the
/// text.
pub open spec fn line_start(text: Seq<char>, line: nat) -> nat
    decreases line,
{
    if line == 0 {
        0
    } else {
        let before = line_start(text, (line - 1) as nat);
        before + line_len(text, before as int)
    }
}

/// The smaller of two numbers.
pub open spec fn least(a: nat, b: nat) -> nat {
    if a <= b {
        a
    } else {
        b
    }
}

/// The index of the scalar value that `(line, character)` names: the start of
/// the line, plus the column, held back to the length of the line.
pub open spec fn offset_of(text: Seq<char>, line: nat, character: nat) -> nat {
    let start = line_start(text, line);
    start + least(character, line_len(text, start as int))
}

/// The number of `\n` in `s`.
pub open spec fn newlines(s: Seq<char>) -> nat
    decreases s.len(),
{
    if s.len() == 0 {
        0
    } else if s.last() == '\n' {
        newlines(s.drop_last()) + 1
    } else {
        newlines(s.drop_last())
    }
}

/// The number of scalar values of `s` behind its last `\n`.
pub open spec fn column(s: Seq<char>) -> nat
    decreases s.len(),
{
    if s.len() == 0 || s.last() == '\n' {
        0
    } else {
        column(s.drop_last()) + 1
    }
}

/// A line ends within the text, and is not empty before the end of the text.
pub proof fn lemma_line_len_bound(text: Seq<char>, from: int)
    requires
        0 <= from <= text.len(),
    ensures
        from + line_len(text, from) <= text.len(),
        from < text.len() ==> line_len(text, from) >= 1,
    decreases text.len() - from,
{
    if from < text.len() && text[from] != '\n' {
        lemma_line_len_bound(text, from + 1);
    }
}

/// A stretch without `\n` belongs to one line.
pub proof fn lemma_line_len_run(text: Seq<char>, from: int, n: int)
    requires
        0 <= from,
        0 <= n,
        from + n <= text.len(),
        forall|j: int| from <= j < from + n ==> text[j] != '\n',
    ensures
        line_len(text, from) == n + line_len(text, from + n),
    decreases n,
{
    if n > 0 {
        lemma_line_len_run(text, from + 1, n - 1);
    }
}

/// Every line begins within the text.
pub proof fn lemma_line_start_bound(text: Seq<char>, line: nat)
    ensures
        line_start(text, line) <= text.len(),
    decreases line,
{
    if line > 0 {
        lemma_line_start_bound(text, (line - 1) as nat);
        lemma_line_len_bound(text, line_start(text, (line - 1) as nat) as int);
    }
}

/// Later lines begin later.
pub proof fn lemma_line_start_monotone(text: Seq<char>, a: nat, b: nat)
    requires
        a <= b,
    ensures
        line_start(text, a) <= line_start(text, b),
    decreases b,
{
    if a < b {
        lemma_line_start_monotone(text, a, (b - 1) as nat);
    }
}

/// A position resolves to a place within the text.
pub proof fn lemma_offset_bound(text: Seq<char>, line: nat, character: nat)
    ensures
        offset_of(text, line, character) <= text.len(),
{
    lemma_line_start_bound(text, line);
    lemma_line_len_bound(text, line_start(text, line) as int);
}

/// Positions resolve in document order.
pub proof fn lemma_offset_monotone(text: Seq<char>, l1: nat, c1: nat, l2: nat, c2: nat)
    requires
        l1 < l2 || (l1 == l2 && c1 <= c2),
    ensures
        offset_of(text, l1, c1) <= offset_of(text, l2, c2),
{
    if l1 < l2 {
        lemma_line_start_monotone(text, l1 + 1, l2);
    }
}

/// The length of a line does not depend on what stands before it.
pub proof fn lemma_line_len_skip(text: Seq<char>, a: int, b: int)
    requires
        0 <= a,
        0 <= b,
        a + b <= text.len(),
    ensures
        line_len(text.skip(a), b) == line_len(text, a + b),
    decreases text.len() - a - b,
{
    if a + b < text.len() && text[a + b] != '\n' {
        lemma_line_len_skip(text, a, b + 1);
    }
}

/// Line starts add up: line `a + b` of a text is line `b` of what begins at
/// line `a`.
pub proof fn lemma_line_start_skip(text: Seq<char>, a: nat, b: nat)
    ensures
        line_start(text, a + b) == line_start(text, a) + line_start(
            text.skip(line_start(text, a) as int),
            b,
        ),
    decreases b,
{
    if b > 0 {
        let base = line_start(text, a) as int;
        let rest = text.skip(base);
        lemma_line_start_skip(text, a, (b - 1) as nat);
        lemma_line_start_bound(text, a);
        lemma_line_start_bound(rest, (b - 1) as nat);
        lemma_line_len_skip(text, base, line_start(rest, (b - 1) as nat) as int);
    }
}

/// What a scan from the start of the text knows at index `k`: the line that
/// `k` lies in begins `column` scalar values earlier, and none of them is a
/// `\n`.
proof fn lemma_scan_line(text: Seq<char>, k: int)
    requires
        0 <= k <= text.len(),
    ensures
        column(text.take(k)) <= k,
        line_start(text, newlines(text.take(k))) == k - column(text.take(k)),
        forall|j: int| k - column(text.take(k)) <= j < k ==> text[j] != '\n',
    decreases k,
{
    if k > 0 {
        lemma_scan_line(text, k - 1);
        assert(text.take(k).drop_last() =~= text.take(k - 1));
        if text[k - 1] == '\n' {
            let c0 = column(text.take(k - 1)) as int;
            lemma_line_len_run(text, k - 1 - c0, c0);
        }
    }
}

/// Counting lines and columns from the start of the text up to index `k`, and
/// then resolving that line and column, gives `k` back: the two ways of
/// finding a place agree wherever a place exists, in scalar values and so in
/// bytes.
pub proof fn lemma_resolve_scan(text: Seq<char>, k: int)
    requires
        0 <= k <= text.len(),
    ensures
        offset_of(text, newlines(text.take(k)), column(text.take(k))) == k,
        byte_len(text.take(offset_of(text, newlines(text.take(k)), column(text.take(k))) as int))
            == byte_len(text.take(k)),
{
    lemma_scan_line(text, k);
    let c = column(text.take(k)) as int;
    lemma_line_len_run(text, k - c, c);
}

/// The length in bytes of the first line of `text`, its `\n` included.
pub fn first_line_bytes(text: &str) -> (r: usize)
    ensures
        r == byte_len(text@.take(line_len(text@, 0) as int)),
{
    broadcast use vstd::string::group_string_axioms;

    in_memory(text);
    let mut bytes: usize = 0;
    let ghost mut k: int = 0;
    let mut it = text.chars();
    loop
        invariant_except_break
            0 <= k <= text@.len(),
            it.remaining() == text@.skip(k),
            bytes == byte_len(text@.take(k)),
            forall|j: int| 0 <= j < k ==> text@[j] != '\n',
        invariant
            it.obeys_prophetic_iter_laws(),
            it.decrease() is Some,
            byte_len(text@) <= usize::MAX,
        ensures
            bytes == byte_len(text@.take(line_len(text@, 0) as int)),
        decreases it.decrease()->0,
    {
        match it.next() {
            None => {
                proof {
                    lemma_line_len_run(text@, 0, k);
                }
                break ;
            },
            Some(c) => {
                proof {
                    lemma_byte_len_step(text@, k);
                    lemma_byte_len_prefix(text@, k + 1);
                }
                bytes = bytes + utf8_width(c);
                if c == '\n' {
                    proof {
                        lemma_line_len_run(text@, 0, k);
                    }
                    break ;
                }
                proof {
                    k = k + 1;
                }
            },
        }
    }
    bytes
}

/// The byte offset at which line `count` of `text` begins: the sum of the
/// byte lengths of the lines before it.
pub fn skip_lines(text: &str, count: u32) -> (r: usize)
    ensures
        r == byte_len(text@.take(line_start(text@, count as nat) as int)),
{
    in_memory(text);
    let mut rest: &str = text;
    let mut bytes: usize = 0;
    let mut seen: u32 = 0;
    while seen < count && !rest.is_empty()
        invariant
            seen <= count,
            line_start(text@, seen as nat) <= text@.len(),
            rest@ == text@.skip(line_start(text@, seen as nat) as int),
            bytes == byte_len(text@.take(line_start(text@, seen as nat) as int)),
            byte_len(text@) <= usize::MAX,
        decreases count - seen,
    {
        let ghost at = line_start(text@, seen as nat) as int;
        let ghost len = line_len(rest@, 0) as int;
        let n = first_line_bytes(rest);
        proof {
            lemma_line_len_skip(text@, at, 0);
            lemma_line_len_bound(text@, at);
            lemma_byte_len_monotone(text@, at, at + len);
            assert(rest@.take(len) =~= text@.subrange(at, at + len));
            lemma_byte_len_prefix(text@, at + len);
        }
        let (_, tail) = split_text(rest, n, Ghost(len));
        rest = tail;
        bytes = bytes + n;
        seen = seen + 1;
    }
    proof {
        if seen < count {
            lemma_line_start_monotone(text@, seen as nat, count as nat);
            lemma_line_start_bound(text@, count as nat);
        }
    }
    bytes
}

/// The length in bytes of the first `character` scalar values of `line`, or
/// of the whole line where it has fewer.
pub fn char_to_byte(line: &str, character: u32) -> (r: usize)
    ensures
        r == byte_len(line@.take(least(character as nat, line@.len()) as int)),
{
    broadcast use vstd::string::group_string_axioms;

    in_memory(line);
    let mut bytes: usize = 0;
    let mut taken: u32 = 0;
    let mut it = line.chars();
    while taken < character
        invariant_except_break
            taken <= line@.len(),
        invariant
            taken <= character,
            it.remaining() == line@.skip(taken as int),
            bytes == byte_len(line@.take(taken as int)),
            it.obeys_prophetic_iter_laws(),
            it.decrease() is Some,
            byte_len(line@) <= usize::MAX,
        ensures
            bytes == byte_len(line@.take(least(character as nat, line@.len()) as int)),
        decreases it.decrease()->0,
    {
        match it.next() {
            None => {
                break ;
            },
            Some(c) => {
                proof {
                    lemma_byte_len_step(line@, taken as int);
                    lemma_byte_len_prefix(line@, taken + 1);
                }
                bytes = bytes + utf8_width(c);
                taken = taken + 1;
            },
        }
    }
    bytes
}

/// The length in bytes of the first `character` scalar values of the first
/// line of `text`, or of that whole line where it has fewer.
pub fn column_bytes(text: &str, character: u32) -> (r: usize)
    ensures
        r == byte_len(text@.take(least(character as nat, line_len(text@, 0)) as int)),
{
    let ghost len = line_len(text@, 0) as int;
    let n = first_line_bytes(text);
    proof {
        lemma_line_len_bound(text@, 0);
    }
    let (line, _) = split_text(text, n, Ghost(len));
    let r = char_to_byte(line, character);
    proof {
        let m = least(character as nat, len as nat) as int;
        assert(text@.take(len).take(m) =~= text@.take(m));
    }
    r
}

/// The byte offset in `text` of the place that `(line, character)` names.
pub fn resolve(text: &str, line: u32, character: u32) -> (r: usize)
    ensures
        r == byte_len(text@.take(offset_of(text@, line as nat, character as nat) as int)),
        r <= byte_len(text@),
{
    let ghost start = line_start(text@, line as nat) as int;
    in_memory(text);
    let b0 = skip_lines(text, line);
    proof {
        lemma_line_start_bound(text@, line as nat);
        lemma_line_len_bound(text@, start);
        lemma_line_len_skip(text@, start, 0);
    }
    let (_, rest) = split_text(text, b0, Ghost(start));
    let d = column_bytes(rest, character);
    proof {
        let m = least(character as nat, line_len(text@, start)) as int;
        lemma_byte_len_skip_take(text@, start, m);
    }
    b0 + d
}

/// A line without what closes it: a `\n`, or a `\r` and a `\n`.
pub open spec fn bare(line: Seq<char>) -> Seq<char> {
    if line.len() > 0 && line.last() == '\n' {
        let body = line.drop_last();
        if body.len() > 0 && body.last() == '\r' {
            body.drop_last()
        } else {
            body
        }
    } else {
        line
    }
}

/// The lines of `text`, each without what closes it. A text that ends in
/// `\n` has no empty line behind it.
pub open spec fn lines_of(text: Seq<char>) -> Seq<Seq<char>>
    decreases text.len(),
{
    let n = line_len(text, 0) as int;
    if 0 < n <= text.len() {
        seq![bare(text.take(n))] + lines_of(text.skip(n))
    } else {
        Seq::empty()
    }
}

/// The texts that strings hold.
pub open spec fn texts(v: Seq<String>) -> Seq<Seq<char>> {
    Seq::new(v.len(), |i: int| v[i]@)
}

/// Line `line` of `text` with what closes it: what stands from the start of
/// the line up to the start of the next.
pub open spec fn whole_line(text: Seq<char>, line: nat) -> Seq<char> {
    text.subrange(line_start(text, line) as int, line_start(text, line + 1) as int)
}

/// The lines that a diagnosis numbers are the lines that positions number:
/// line `i` of the lines of a text is what stands from the start of line `i`
/// to the start of the next, without what closes it.
pub proof fn lemma_line_at(text: Seq<char>, i: int)
    requires
        0 <= i < lines_of(text).len(),
    ensures
        line_start(text, i as nat) < text.len(),
        lines_of(text)[i] == bare(whole_line(text, i as nat)),
    decreases i,
{
    let n = line_len(text, 0) as int;
    assert(line_start(text, 1) == n) by {
        reveal_with_fuel(line_start, 2);
    }
    if i > 0 {
        let rest = text.skip(n);
        lemma_line_at(rest, i - 1);
        lemma_line_start_skip(text, 1, (i - 1) as nat);
        lemma_line_start_skip(text, 1, i as nat);
        lemma_line_start_bound(rest, i as nat);
    }
}

/// `line` without what closes it.
pub fn bare_line<'a>(line: &'a str) -> (r: &'a str)
    ensures
        r@ == bare(line@),
{
    broadcast use vstd::string::group_string_axioms;

    in_memory(line);
    let mut bytes: usize = 0;
    let mut before_last: usize = 0;
    let mut before_both: usize = 0;
    let mut last: char = ' ';
    let mut earlier: char = ' ';
    let mut seen: u8 = 0;
    let ghost mut k: int = 0;
    let mut it = line.chars();
    loop
        invariant
            0 <= k <= line@.len(),
            it.remaining() == line@.skip(k),
            bytes == byte_len(line@.take(k)),
            seen <= 2,
            seen == least(k as nat, 2),
            k >= 1 ==> last == line@[k - 1] && before_last == byte_len(line@.take(k - 1)),
            k >= 2 ==> earlier == line@[k - 2] && before_both == byte_len(line@.take(k - 2)),
            it.obeys_prophetic_iter_laws(),
            it.decrease() is Some,
            byte_len(line@) <= usize::MAX,
        ensures
            k == line@.len(),
            seen == least(k as nat, 2),
            k >= 1 ==> last == line@[k - 1] && before_last == byte_len(line@.take(k - 1)),
            k >= 2 ==> earlier == line@[k - 2] && before_both == byte_len(line@.take(k - 2)),
        decreases it.decrease()->0,
    {
        match it.next() {
            None => {
                break ;
            },
            Some(x) => {
                proof {
                    lemma_byte_len_step(line@, k);
                    lemma_byte_len_prefix(line@, k + 1);
                }
                earlier = last;
                before_both = before_last;
                last = x;
                before_last = bytes;
                bytes = bytes + utf8_width(x);
                if seen < 2 {
                    seen = seen + 1;
                }
                proof {
                    k = k + 1;
                }
            },
        }
    }
    if seen >= 1 && last == '\n' {
        if seen >= 2 && earlier == '\r' {
            let (body, _) = split_text(line, before_both, Ghost(k - 2));
            body
        } else {
            let (body, _) = split_text(line, before_last, Ghost(k - 1));
            body
        }
    } else {
        line
    }
}

/// The lines of `text`, each without what closes it.
pub fn split_lines(text: &str) -> (r: Vec<String>)
    ensures
        texts(r@) == lines_of(text@),
{
    let mut out: Vec<String> = Vec::new();
    let mut rest: &str = text;
    while !rest.is_empty()
        invariant
            texts(out@) + lines_of(rest@) == lines_of(text@),
        decreases rest@.len(),
    {
        let ghost len = line_len(rest@, 0) as int;
        let n = first_line_bytes(rest);
        proof {
            lemma_line_len_bound(rest@, 0);
        }
        let (line, tail) = split_text(rest, n, Ghost(len));
        let body = bare_line(line);
        out.push(body.to_owned());
        rest = tail;
    }
    out
}

} // verus!
