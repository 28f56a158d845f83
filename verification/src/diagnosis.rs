//! A diagnosis as a whole: what the conversation with the checker gives when
//! it is carried through, and what holds of the result.

use vstd::prelude::*;
use crate::spell::{
    answer, begin, next_stop, proceed, reading, views, Action, ActionView, DiagnosticView, Process,
    ProcessView, Program, ReplyView, Severity,
};
use crate::text::{lines_of, texts};

verus! {

/// Where a conversation stands after the checker has said `replies`, one
/// after the other, for as long as it was listened to.
pub open spec fn run(p: ProcessView, action: ActionView, replies: Seq<Seq<char>>) -> ActionView
    decreases replies.len(),
{
    if replies.len() == 0 || action is Done || action is Fail {
        action
    } else {
        let next = answer(p, replies[0]);
        run(next.0, next.1, replies.drop_first())
    }
}

/// What the diagnosis of `text` gives when the checker says `replies`.
pub open spec fn diagnose(
    program: Program,
    text: Seq<char>,
    replies: Seq<Seq<char>>,
) -> ActionView {
    let first = begin(program, text);
    run(first.0, first.1, replies)
}

/// A diagnostic lies on one line of `lines`, a line that is not empty; it
/// does not end before it starts, and is as wide as the word it names.
pub open spec fn on_line(d: DiagnosticView, lines: Seq<Seq<char>>) -> bool {
    &&& d.range.start.line == d.range.end.line
    &&& d.range.start.line < lines.len()
    &&& lines[d.range.start.line as int].len() > 0
    &&& d.range.start.character <= d.range.end.character
    &&& d.range.end.character - d.range.start.character == d.message.len()
    &&& d.severity == Severity::Error
}

/// A diagnostic lies on one line of `lines` and ends within it.
pub open spec fn within(d: DiagnosticView, lines: Seq<Seq<char>>) -> bool {
    on_line(d, lines) && d.range.end.character <= lines[d.range.start.line as int].len()
}

/// What the checker says about `about` does not lead behind its end.
pub open spec fn fits(about: Seq<char>, reply: Seq<char>, row: u32) -> bool {
    reading(reply, row) matches Ok(ReplyView::Miss(d)) ==> d.range.end.character <= about.len()
}

/// None of `replies` names a word that would end behind the end of the line
/// that the checker was asked about.
pub open spec fn honest(p: ProcessView, action: ActionView, replies: Seq<Seq<char>>) -> bool
    decreases replies.len(),
{
    if replies.len() == 0 || action is Done || action is Fail {
        true
    } else {
        let next = answer(p, replies[0]);
        &&& p.exchange matches Some(e) ==> fits(e.lines[e.row as int], replies[0], e.row as u32)
        &&& honest(next.0, next.1, replies.drop_first())
    }
}

/// The diagnostics come in the order of the lines they lie on.
pub open spec fn in_line_order(found: Seq<DiagnosticView>) -> bool {
    forall|i: int, j: int|
        0 <= i <= j < found.len() ==> (#[trigger] found[i]).range.start.line <= (
        #[trigger] found[j]).range.start.line
}

/// What is kept of the diagnostics found so far: each lies on a line of
/// `lines` no later than `row`, within it where `strict` asks for that, and
/// they stand in the order of their lines.
spec fn kept(found: Seq<DiagnosticView>, lines: Seq<Seq<char>>, row: nat, strict: bool) -> bool {
    &&& forall|i: int|
        0 <= i < found.len() ==> on_line(#[trigger] found[i], lines) && found[i].range.start.line
            <= row && (strict ==> within(found[i], lines))
    &&& in_line_order(found)
}

/// What holds of a conversation about `lines` at every step.
spec fn steady(p: ProcessView, action: ActionView, lines: Seq<Seq<char>>, strict: bool) -> bool {
    &&& p.exchange matches Some(e) ==> e.lines == lines && e.row < lines.len() && e.row <= u32::MAX
        && lines[e.row as int].len() > 0 && kept(e.found, lines, e.row, strict)
    &&& action matches ActionView::Done(found) ==> kept(found, lines, lines.len(), strict)
}

/// The next line to ask about is not empty, and no earlier than where the
/// search began.
proof fn lemma_next_stop(lines: Seq<Seq<char>>, from: nat)
    ensures
        from <= next_stop(lines, from) || next_stop(lines, from) == lines.len(),
        ({
            let stop = next_stop(lines, from);
            stop < lines.len() && stop <= u32::MAX ==> lines[stop as int].len() > 0
        }),
    decreases lines.len() - from,
{
    if from < lines.len() && !(from > u32::MAX || lines[from as int].len() > 0) {
        lemma_next_stop(lines, from + 1);
    }
}

/// Going on from a later line keeps what was found.
proof fn lemma_proceed_steady(
    program: Program,
    lines: Seq<Seq<char>>,
    from: nat,
    found: Seq<DiagnosticView>,
    strict: bool,
)
    requires
        from <= lines.len(),
        kept(found, lines, from, strict),
    ensures
        steady(
            proceed(program, lines, from, found).0,
            proceed(program, lines, from, found).1,
            lines,
            strict,
        ),
{
    lemma_next_stop(lines, from);
}

/// One more line of the checker keeps a conversation steady.
proof fn lemma_answer_steady(p: ProcessView, line: Seq<char>, lines: Seq<Seq<char>>, strict: bool)
    requires
        steady(p, ActionView::Read, lines, strict),
        strict ==> (p.exchange matches Some(e) ==> fits(e.lines[e.row as int], line, e.row as u32)),
    ensures
        steady(answer(p, line).0, answer(p, line).1, lines, strict),
{
    match p.exchange {
        None => {},
        Some(e) => {
            match reading(line, e.row as u32) {
                Ok(ReplyView::End) => {
                    lemma_proceed_steady(p.program, lines, e.row + 1, e.found, strict);
                },
                Ok(ReplyView::Miss(_)) => {},
                Err(_) => {},
            }
        },
    }
}

/// A steady conversation gives diagnostics that are kept as they should be.
proof fn lemma_run_steady(
    p: ProcessView,
    action: ActionView,
    replies: Seq<Seq<char>>,
    lines: Seq<Seq<char>>,
    strict: bool,
)
    requires
        steady(p, action, lines, strict),
        strict ==> honest(p, action, replies),
    ensures
        run(p, action, replies) matches ActionView::Done(found) ==> kept(
            found,
            lines,
            lines.len(),
            strict,
        ),
    decreases replies.len(),
{
    if !(replies.len() == 0 || action is Done || action is Fail) {
        let next = answer(p, replies[0]);
        lemma_answer_steady(p, replies[0], lines, strict);
        lemma_run_steady(next.0, next.1, replies.drop_first(), lines, strict);
    }
}

/// Whatever the checker says: where a diagnosis is completed, each of its
/// diagnostics lies on one line of the text, a line that is not empty; it
/// does not end before it starts, is as wide as the word that it names, and is
/// an error. The diagnostics stand in the order of their lines.
pub proof fn lemma_diagnosis_on_lines(program: Program, text: Seq<char>, replies: Seq<Seq<char>>)
    ensures
        diagnose(program, text, replies) matches ActionView::Done(found) ==> in_line_order(found)
            && forall|i: int| 0 <= i < found.len() ==> on_line(#[trigger] found[i], lines_of(text)),
{
    let first = begin(program, text);
    let lines = lines_of(text);
    lemma_proceed_steady(program, lines, 0, Seq::empty(), false);
    lemma_run_steady(first.0, first.1, replies, lines, false);
}

/// Where the checker names no word that would end behind the end of the line
/// it was asked about, each diagnostic of a completed diagnosis lies within
/// the bounds of its line.
pub proof fn lemma_diagnosis_within(program: Program, text: Seq<char>, replies: Seq<Seq<char>>)
    requires
        honest(begin(program, text).0, begin(program, text).1, replies),
    ensures
        diagnose(program, text, replies) matches ActionView::Done(found) ==> forall|i: int|
            0 <= i < found.len() ==> within(#[trigger] found[i], lines_of(text)),
{
    let first = begin(program, text);
    let lines = lines_of(text);
    lemma_proceed_steady(program, lines, 0, Seq::empty(), true);
    lemma_run_steady(first.0, first.1, replies, lines, true);
}

/// What the checker is asked in the course of a conversation, one text after
/// the other.
pub open spec fn asked(p: ProcessView, action: ActionView, replies: Seq<Seq<char>>) -> Seq<
    Seq<char>,
>
    decreases replies.len(),
{
    let now = match action {
        ActionView::Ask(text) => seq![text],
        _ => Seq::empty(),
    };
    if replies.len() == 0 || action is Done || action is Fail {
        now
    } else {
        let next = answer(p, replies[0]);
        now + asked(next.0, next.1, replies.drop_first())
    }
}

/// The lines from `from` on that are not empty, each closed by a line break.
pub open spec fn questions(lines: Seq<Seq<char>>, from: nat) -> Seq<Seq<char>>
    decreases lines.len() - from,
{
    if from >= lines.len() {
        Seq::empty()
    } else if lines[from as int].len() > 0 {
        seq![lines[from as int] + seq!['\n']] + questions(lines, from + 1)
    } else {
        questions(lines, from + 1)
    }
}

/// The empty lines up to the next stop ask nothing.
proof fn lemma_questions_skip(lines: Seq<Seq<char>>, from: nat)
    ensures
        next_stop(lines, from) <= u32::MAX || next_stop(lines, from) >= lines.len()
            ==> questions(lines, from) == questions(lines, next_stop(lines, from)),
    decreases lines.len() - from,
{
    if from < lines.len() && !(from > u32::MAX || lines[from as int].len() > 0) {
        lemma_questions_skip(lines, from + 1);
    }
}

/// What is still to be asked where a conversation stands.
spec fn open_questions(p: ProcessView, action: ActionView) -> Seq<Seq<char>> {
    match (p.exchange, action) {
        (Some(e), ActionView::Ask(_)) => questions(e.lines, e.row),
        (Some(e), ActionView::Read) => questions(e.lines, e.row + 1),
        _ => Seq::empty(),
    }
}

/// A conversation whose action fits its state: the line that is asked about
/// is the line that the state points at.
spec fn aligned(p: ProcessView, action: ActionView) -> bool {
    &&& action is Ask || action is Read ==> p.exchange is Some
    &&& p.exchange matches Some(e) ==> e.row < e.lines.len() && e.lines[e.row as int].len() > 0 && (
    action matches ActionView::Ask(text) ==> text == e.lines[e.row as int] + seq!['\n'])
}

/// Going on from a later line asks what is left to ask.
proof fn lemma_proceed_aligned(
    program: Program,
    lines: Seq<Seq<char>>,
    from: nat,
    found: Seq<DiagnosticView>,
)
    ensures
        aligned(proceed(program, lines, from, found).0, proceed(program, lines, from, found).1),
        !(proceed(program, lines, from, found).1 is Fail) ==> open_questions(
            proceed(program, lines, from, found).0,
            proceed(program, lines, from, found).1,
        ) == questions(lines, from),
{
    lemma_next_stop(lines, from);
    lemma_questions_skip(lines, from);
}

/// A conversation that is carried through asks all that was left to ask.
proof fn lemma_asked_all(p: ProcessView, action: ActionView, replies: Seq<Seq<char>>)
    requires
        aligned(p, action),
    ensures
        run(p, action, replies) is Done ==> asked(p, action, replies) == open_questions(p, action),
    decreases replies.len(),
{
    if !(replies.len() == 0 || action is Done || action is Fail) {
        let e = p.exchange->0;
        let next = answer(p, replies[0]);
        match reading(replies[0], e.row as u32) {
            Ok(ReplyView::End) => {
                lemma_proceed_aligned(p.program, e.lines, e.row + 1, e.found);
            },
            Ok(ReplyView::Miss(_)) => {},
            Err(_) => {},
        }
        lemma_asked_all(next.0, next.1, replies.drop_first());
    }
}

/// Where a diagnosis is completed, the checker was asked about each line of
/// the text that is not empty, once and in the order of the lines, and about
/// nothing else.
pub proof fn lemma_diagnosis_asks_each_line(
    program: Program,
    text: Seq<char>,
    replies: Seq<Seq<char>>,
)
    ensures
        diagnose(program, text, replies) is Done ==> asked(
            begin(program, text).0,
            begin(program, text).1,
            replies,
        ) == questions(lines_of(text), 0),
{
    let first = begin(program, text);
    lemma_proceed_aligned(program, lines_of(text), 0, Seq::empty());
    lemma_asked_all(first.0, first.1, replies);
}

/// Carries the diagnosis of `text` through with a checker that says
/// `replies`, one after the other, and gives where the conversation stands
/// when the diagnosis has ended or the replies have run out. The diagnostics
/// of a completed diagnosis lie on the lines of the text, in their order; they
/// lie within the bounds of their lines where the checker names no word that
/// would end behind the end of the line it was asked about.
pub fn replay(program: Program, text: &str, replies: &Vec<String>) -> (r: Action)
    ensures
        r@ == diagnose(program, text@, texts(replies@)),
        r matches Action::Done(found) ==> in_line_order(views(found@)) && forall|i: int|
            0 <= i < found.len() ==> on_line(#[trigger] views(found@)[i], lines_of(text@)),
        honest(begin(program, text@).0, begin(program, text@).1, texts(replies@)) ==> (
        r matches Action::Done(found) ==> forall|i: int|
            0 <= i < found.len() ==> within(#[trigger] views(found@)[i], lines_of(text@))),
{
    let mut process = Process::new(program);
    let mut action = process.diags(text);
    let mut i: usize = 0;
    proof {
        assert(texts(replies@).skip(0) =~= texts(replies@));
    }
    loop
        invariant
            i <= replies.len(),
            diagnose(program, text@, texts(replies@)) == run(
                process@,
                action@,
                texts(replies@).skip(i as int),
            ),
        ensures
            action@ == diagnose(program, text@, texts(replies@)),
        decreases replies.len() - i,
    {
        if i >= replies.len() {
            break ;
        }
        match action {
            Action::Done(_) => {
                break ;
            },
            Action::Fail(_) => {
                break ;
            },
            _ => {},
        }
        let ghost rest = texts(replies@).skip(i as int);
        proof {
            assert(rest.drop_first() =~= texts(replies@).skip(i + 1));
        }
        action = process.reply(replies[i].as_str());
        i = i + 1;
    }
    proof {
        lemma_diagnosis_on_lines(program, text@, texts(replies@));
        if honest(begin(program, text@).0, begin(program, text@).1, texts(replies@)) {
            lemma_diagnosis_within(program, text@, texts(replies@));
        }
    }
    action
}

} // verus!
