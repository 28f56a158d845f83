use spelgud::diagnosis::replay;
use spelgud::position::{Position, Range};
use spelgud::spell::{
    parse_reply, read_suggestions, Action, Diagnostic, DiagnosticData, Process, Program, Reply,
    Severity, SpellError, PIPE_FLAG, TERSE,
};

fn range(line: u32, from: u32, to: u32) -> Range {
    Range {
        start: Position {
            line,
            character: from,
        },
        end: Position {
            line,
            character: to,
        },
    }
}

/// Carries a diagnosis through with a checker that says `replies`, and gives
/// what the checker was asked besides the result.
fn converse(
    process: &mut Process,
    text: &str,
    replies: &[&str],
) -> (Vec<String>, Result<Vec<Diagnostic>, SpellError>) {
    let mut asked = Vec::new();
    let mut said = replies.iter();
    let mut action = process.diags(text);
    loop {
        match action {
            Action::Ask(line) => {
                asked.push(line);
                assert!(process.listening());
                action = process.reply(said.next().expect("the checker has more to say"));
            }
            Action::Read => {
                assert!(process.listening());
                action = process.reply(said.next().expect("the checker has more to say"));
            }
            Action::Done(found) => {
                assert!(!process.listening());
                assert!(said.next().is_none());
                return (asked, Ok(found));
            }
            Action::Fail(e) => {
                assert!(!process.listening());
                return (asked, Err(e));
            }
        }
    }
}

#[test]
fn test_diags() {
    let mut proc = Process::new(Program::Aspell);
    let (asked, actual) = converse(
        &mut proc,
        [
            "The quick brown fox jumped over the lazy dog",
            "The quick brown fox jumped over the lazy dog",
            "The kwick brown fox jumped over the lazzy dog",
            "",
            "The quick brown fox jumped over the lazy dog",
        ]
        .join("\n")
        .as_str(),
        &[
            "\n",
            "\n",
            "& kwick 8 4: quick, kick, Wick, wick, KWIC, kiwi, Kwok, Quirk\n",
            "& lazzy 12 36: lazy, jazzy, Lizzy, lazily, Lacy, Lazaro, lacy, lays, laze, Liza, Lizzie, Lazar\n",
            "\n",
            "\n",
        ],
    );
    let actual = actual.unwrap();

    assert_eq!(actual.len(), 2);
    assert_eq!(
        actual[0].range,
        Range {
            start: Position {
                line: 2,
                character: 4,
            },
            end: Position {
                line: 2,
                character: 9,
            },
        },
    );
    assert_eq!(actual[0].severity, Severity::Error);
    assert_eq!(actual[0].message, "kwick");
    assert_eq!(
        actual[1].range,
        Range {
            start: Position {
                line: 2,
                character: 36,
            },
            end: Position {
                line: 2,
                character: 41,
            },
        }
    );
    assert_eq!(actual[1].severity, Severity::Error);
    assert_eq!(actual[1].message, "lazzy");

    assert_eq!(
        asked,
        vec![
            "The quick brown fox jumped over the lazy dog\n",
            "The quick brown fox jumped over the lazy dog\n",
            "The kwick brown fox jumped over the lazzy dog\n",
            "The quick brown fox jumped over the lazy dog\n",
        ]
    );
    let data = actual[0].data.as_ref().unwrap();
    assert_eq!(data.original, "kwick");
    assert_eq!(data.range, actual[0].range);
    assert_eq!(
        data.fixes,
        vec!["quick", "kick", "Wick", "wick", "KWIC", "kiwi", "Kwok", "Quirk"]
    );
}

#[test]
fn spell_diagnostics_of_a_four_line_document() {
    let mut process = Process::new(Program::Aspell);
    let (_, found) = converse(
        &mut process,
        "First line\nSecond line\nThe kwick brown fox jumped over the lazzy dog\nLast line\n",
        &[
            "\n",
            "\n",
            "& kwick 2 4: quick, kick\n",
            "# lazzy 36\n",
            "\n",
            "\n",
        ],
    );
    let found = found.unwrap();
    assert_eq!(found.len(), 2);
    assert_eq!(found[0].range, range(2, 4, 9));
    assert_eq!(found[0].message, "kwick");
    assert_eq!(found[0].severity, Severity::Error);
    assert_eq!(found[1].range, range(2, 36, 41));
    assert_eq!(found[1].message, "lazzy");
    assert_eq!(found[1].severity, Severity::Error);
}

#[test]
fn a_line_with_suggestions() {
    let reply = parse_reply("& kwick 5 4: quick, kick, k wick, wick\n", 2).unwrap();
    assert_eq!(
        reply,
        Reply::Miss(Diagnostic {
            range: range(2, 4, 9),
            severity: Severity::Error,
            message: "kwick".into(),
            data: Some(DiagnosticData {
                original: "kwick".into(),
                fixes: vec!["quick".into(), "kick".into(), "k wick".into(), "wick".into()],
                range: range(2, 4, 9),
            }),
        })
    );
}

#[test]
fn a_line_without_suggestions() {
    let reply = parse_reply("# xyzzyx 17\n", 9).unwrap();
    assert_eq!(
        reply,
        Reply::Miss(Diagnostic {
            range: range(9, 17, 23),
            severity: Severity::Error,
            message: "xyzzyx".into(),
            data: Some(DiagnosticData {
                original: "xyzzyx".into(),
                fixes: vec![],
                range: range(9, 17, 23),
            }),
        })
    );
    assert_eq!(parse_reply("# xyzzyx 17", 9).unwrap(), reply);
    assert_eq!(parse_reply("# xyzzyx 17\r\n", 9).unwrap(), reply);
}

#[test]
fn the_blank_line_ends_an_answer() {
    assert_eq!(parse_reply("\n", 0), Ok(Reply::End));
}

#[test]
fn the_width_of_a_word_counts_scalar_values() {
    match parse_reply("& caf𐐀é 1 3: cafe\n", 0).unwrap() {
        Reply::Miss(d) => {
            assert_eq!(d.range, range(0, 3, 8));
            assert_eq!(d.message, "caf𐐀é");
        }
        Reply::End => panic!("a word was named"),
    }
}

#[test]
fn lines_of_no_known_shape_are_refused() {
    for line in [
        "",
        "*\n",
        "\r\n",
        " \n",
        "&\n",
        "& word\n",
        "& word 5\n",
        "& word 5 4\n",
        "&word 5 4: a\n",
        "#\n",
        "# word\n",
        "#word 4\n",
        "+ root\n",
        "? word 0 4: guess\n",
        "@(#) International Ispell Version 3.1.20\n",
    ] {
        assert_eq!(
            parse_reply(line, 3),
            Err(SpellError::UnexpectedLine(line.to_string())),
            "{:?}",
            line
        );
    }
}

#[test]
fn an_offset_that_is_no_number_is_refused() {
    for line in [
        "& word 5 x: a\n",
        "& word 5 : a\n",
        "& word 5 -4: a\n",
        "& word 5 4294967296: a\n",
        "# word x\n",
        "# word \n",
        "# word 4 5\n",
    ] {
        assert_eq!(
            parse_reply(line, 3),
            Err(SpellError::BadOffset(line.to_string())),
            "{:?}",
            line
        );
    }
}

#[test]
fn a_word_that_ends_behind_the_last_column_is_refused() {
    let line = "# word 4294967292\n";
    assert_eq!(
        parse_reply(line, 0),
        Err(SpellError::RangeOverflow(line.to_string()))
    );
    match parse_reply("# word 4294967291\n", 0).unwrap() {
        Reply::Miss(d) => assert_eq!(d.range, range(0, 4294967291, u32::MAX)),
        Reply::End => panic!("a word was named"),
    }
}

#[test]
fn an_offset_may_carry_a_plus() {
    match parse_reply("& word 1 +7: a\n", 0).unwrap() {
        Reply::Miss(d) => assert_eq!(d.range, range(0, 7, 11)),
        Reply::End => panic!("a word was named"),
    }
}

#[test]
fn suggestions_are_cut_at_commas_and_trimmed() {
    assert_eq!(read_suggestions(" quick, kick\n"), vec!["quick", "kick"]);
    assert_eq!(read_suggestions(" a b, c\n"), vec!["a b", "c"]);
    assert_eq!(read_suggestions(" a,b, c\n"), vec!["a,b", "c"]);
    assert_eq!(read_suggestions(" , a, , b,  , \n"), vec!["a", "b"]);
    assert_eq!(read_suggestions(" a, b,\n"), vec!["a", "b,"]);
    assert_eq!(read_suggestions(""), Vec::<String>::new());
    assert_eq!(read_suggestions(" \n"), Vec::<String>::new());
    assert_eq!(read_suggestions(", "), Vec::<String>::new());
    assert_eq!(read_suggestions(" café, 日本\n"), vec!["café", "日本"]);
}

#[test]
fn empty_lines_are_not_sent() {
    let mut process = Process::new(Program::Hunspell);
    let (asked, found) = converse(&mut process, "\n\none\n\n\ntwo\n\n", &["\n", "# twoo 0\n", "\n"]);
    assert_eq!(asked, vec!["one\n", "two\n"]);
    let found = found.unwrap();
    assert_eq!(found.len(), 1);
    assert_eq!(found[0].range, range(5, 0, 4));
}

#[test]
fn a_text_without_words_needs_no_checker() {
    let mut process = Process::new(Program::Aspell);
    assert_eq!(process.diags(""), Action::Done(vec![]));
    assert_eq!(process.diags("\n\n\r\n"), Action::Done(vec![]));
    assert!(!process.listening());
}

#[test]
fn line_breaks_of_either_kind_are_left_out_of_what_is_sent() {
    let mut process = Process::new(Program::Aspell);
    let (asked, found) = converse(&mut process, "one\r\ntwo", &["\n", "\n"]);
    assert_eq!(asked, vec!["one\n", "two\n"]);
    assert_eq!(found.unwrap(), vec![]);
}

#[test]
fn a_failed_diagnosis_gives_nothing() {
    let mut process = Process::new(Program::Aspell);
    let (asked, found) = converse(
        &mut process,
        "onee\ntwo\n",
        &["# onee 0\n", "what is this\n", "\n", "\n"],
    );
    assert_eq!(asked, vec!["onee\n"]);
    assert_eq!(
        found,
        Err(SpellError::UnexpectedLine("what is this\n".to_string()))
    );
    assert!(!process.listening());
}

#[test]
fn the_end_of_the_answers_is_no_answer() {
    let mut process = Process::new(Program::Aspell);
    assert_eq!(process.diags("one"), Action::Ask("one\n".to_string()));
    assert_eq!(
        process.reply(""),
        Action::Fail(SpellError::UnexpectedLine(String::new()))
    );
}

#[test]
fn a_line_that_nobody_asked_for_is_refused() {
    let mut process = Process::new(Program::Aspell);
    assert_eq!(
        process.reply("\n"),
        Action::Fail(SpellError::UnexpectedLine("\n".to_string()))
    );
    assert!(!process.listening());
}

#[test]
fn a_new_diagnosis_drops_the_one_under_way() {
    let mut process = Process::new(Program::Aspell);
    assert_eq!(process.diags("onee"), Action::Ask("onee\n".to_string()));
    assert_eq!(process.reply("# onee 0\n"), Action::Read);
    let (asked, found) = converse(&mut process, "two", &["\n"]);
    assert_eq!(asked, vec!["two\n"]);
    assert_eq!(found.unwrap(), vec![]);
}

#[test]
fn an_aborted_diagnosis_is_over() {
    let mut process = Process::new(Program::Ispell);
    assert_eq!(process.diags("onee"), Action::Ask("onee\n".to_string()));
    process.abort();
    assert!(!process.listening());
    assert_eq!(process.program(), Program::Ispell);
}

#[test]
fn diagnostics_lie_on_their_lines_in_document_order() {
    let text = "zero\n\ntwoo is threee\nfourr\n";
    let lines: Vec<&str> = text.lines().collect();
    let mut process = Process::new(Program::Aspell);
    let (_, found) = converse(
        &mut process,
        text,
        &[
            "\n",
            "& twoo 1 0: two\n",
            "# threee 8\n",
            "\n",
            "# fourr 0\n",
            "\n",
        ],
    );
    let found = found.unwrap();
    assert_eq!(found.len(), 3);
    let mut last = 0;
    for d in &found {
        assert_eq!(d.range.start.line, d.range.end.line);
        assert!(d.range.start.line >= last);
        last = d.range.start.line;
        let line = lines[d.range.start.line as usize];
        assert!(d.range.start.character <= d.range.end.character);
        assert!(d.range.end.character as usize <= line.chars().count());
        let word: String = line
            .chars()
            .skip(d.range.start.character as usize)
            .take((d.range.end.character - d.range.start.character) as usize)
            .collect();
        assert_eq!(word, d.message);
    }
}

#[test]
fn the_checkers_by_their_commands() {
    assert_eq!(Program::Aspell.command(), "aspell");
    assert_eq!(Program::Ispell.command(), "ispell");
    assert_eq!(Program::Hunspell.command(), "hunspell");
    assert_eq!(PIPE_FLAG, "-a");
    assert_eq!(TERSE, "!\n");
}

fn said(replies: &[&str]) -> Vec<String> {
    replies.iter().map(|s| s.to_string()).collect()
}

#[test]
fn a_diagnosis_replayed() {
    let text = "zero\n\ntwoo is threee\nfourr\n";
    let replies = said(&[
        "\n",
        "& twoo 1 0: two\n",
        "# threee 8\n",
        "\n",
        "# fourr 0\n",
        "\n",
    ]);
    match replay(Program::Aspell, text, &replies) {
        Action::Done(found) => {
            assert_eq!(found.len(), 3);
            assert_eq!(found[0].range, range(2, 0, 4));
            assert_eq!(found[1].range, range(2, 8, 14));
            assert_eq!(found[2].range, range(3, 0, 5));
        }
        other => panic!("the diagnosis was not completed: {:?}", other),
    }
}

#[test]
fn a_replay_stops_where_the_replies_end() {
    let text = "one\ntwo\n";
    assert_eq!(
        replay(Program::Aspell, text, &said(&[])),
        Action::Ask("one\n".to_string())
    );
    assert_eq!(replay(Program::Aspell, text, &said(&["# onne 0\n"])), Action::Read);
    assert_eq!(
        replay(Program::Aspell, text, &said(&["\n"])),
        Action::Ask("two\n".to_string())
    );
    assert_eq!(
        replay(Program::Aspell, text, &said(&["\n", "\n", "# late 0\n"])),
        Action::Done(vec![])
    );
    assert_eq!(
        replay(Program::Aspell, text, &said(&["\n", "bad\n", "\n"])),
        Action::Fail(SpellError::UnexpectedLine("bad\n".to_string()))
    );
    assert_eq!(replay(Program::Aspell, "", &said(&["\n"])), Action::Done(vec![]));
}
