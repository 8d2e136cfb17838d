use lessbrainfuck::command::ParseError;
use lessbrainfuck::parser::Parser;
use lessbrainfuck::transpiler::Transpiler;

/// Feeds the lines to a fresh interpreter and returns the results with the
/// emitter's final cursor and text.
fn translate(lines: &[&str]) -> (Vec<Result<(), ParseError>>, usize, String) {
    let mut transpiler = Transpiler::new();
    let mut results = Vec::new();
    {
        let mut parser = Parser::new(&mut transpiler);
        for line in lines {
            results.push(parser.parse_line(line));
        }
    }
    (results, transpiler.pointer, transpiler.output)
}

/// Feeds one line to an interpreter whose emitter starts at `cursor`.
fn translate_from(cursor: usize, line: &str) -> (Result<(), ParseError>, usize, String) {
    let mut transpiler = Transpiler::new();
    transpiler.pointer = cursor;
    let result = Parser::new(&mut transpiler).parse_line(line);
    (result, transpiler.pointer, transpiler.output)
}

/// A small tape machine: returns the tape, the cursor and what was printed.
fn run_tape(code: &str, mut tape: Vec<u8>) -> (Vec<u8>, usize, Vec<u8>) {
    let code: Vec<char> = code.chars().collect();
    let mut cursor = 0usize;
    let mut printed = Vec::new();
    let mut pc = 0usize;
    while pc < code.len() {
        if cursor >= tape.len() {
            tape.resize(cursor + 1, 0);
        }
        match code[pc] {
            '>' => cursor += 1,
            '<' => cursor -= 1,
            '+' => tape[cursor] = tape[cursor].wrapping_add(1),
            '-' => tape[cursor] = tape[cursor].wrapping_sub(1),
            '.' => printed.push(tape[cursor]),
            '[' => {
                if tape[cursor] == 0 {
                    let mut depth = 1;
                    while depth > 0 {
                        pc += 1;
                        if code[pc] == '[' {
                            depth += 1;
                        } else if code[pc] == ']' {
                            depth -= 1;
                        }
                    }
                }
            }
            ']' => {
                if tape[cursor] != 0 {
                    let mut depth = 1;
                    while depth > 0 {
                        pc -= 1;
                        if code[pc] == ']' {
                            depth += 1;
                        } else if code[pc] == '[' {
                            depth -= 1;
                        }
                    }
                }
            }
            other => panic!("not an instruction: {}", other),
        }
        pc += 1;
    }
    if cursor >= tape.len() {
        tape.resize(cursor + 1, 0);
    }
    (tape, cursor, printed)
}

#[test]
fn move_then_store_relative() {
    let (results, cursor, output) = translate(&["move :5", "store +5"]);
    assert_eq!(results, vec![Ok(()), Ok(())]);
    assert_eq!(cursor, 5);
    assert_eq!(output, ">>>>>+++++");
}

#[test]
fn store_exact_twice_holds_value_once() {
    let (results, cursor, output) = translate(&["store :10", "store :10"]);
    assert_eq!(results, vec![Ok(()), Ok(())]);
    assert_eq!(cursor, 0);
    assert_eq!(output, "[-]++++++++++[-]++++++++++");
    let (tape, at, printed) = run_tape(&output, vec![77]);
    assert_eq!(tape[0], 10);
    assert_eq!(at, 0);
    assert_eq!(printed, Vec::<u8>::new());
}

#[test]
fn storec_with_marker_stores_and_advances() {
    let (results, cursor, output) = translate(&["storec h!"]);
    assert_eq!(results, vec![Ok(())]);
    assert_eq!(cursor, 1);
    assert_eq!(output, format!("[-]{}>", "+".repeat(104)));
    let (tape, at, _) = run_tape(&output, vec![]);
    assert_eq!(tape[0], b'h');
    assert_eq!(at, 1);
}

#[test]
fn unknown_command_changes_nothing() {
    let (results, cursor, output) = translate(&["banana"]);
    assert_eq!(results, vec![Err(ParseError::UnknownCommand)]);
    assert_eq!(cursor, 0);
    assert_eq!(output, "");
}

#[test]
fn move_below_cell_zero_is_rejected() {
    let (results, cursor, output) = translate(&["move -1"]);
    assert_eq!(results, vec![Err(ParseError::CursorUnderflow)]);
    assert_eq!(cursor, 0);
    assert_eq!(output, "");
}

#[test]
fn move_left_to_cell_zero_is_accepted() {
    let (result, cursor, output) = translate_from(3, "move -3");
    assert_eq!(result, Ok(()));
    assert_eq!(cursor, 0);
    assert_eq!(output, "<<<");
    let (result, cursor, output) = translate_from(3, "move -4");
    assert_eq!(result, Err(ParseError::CursorUnderflow));
    assert_eq!(cursor, 3);
    assert_eq!(output, "");
}

#[test]
fn underflow_is_rejected_before_the_marker_advances() {
    let (result, cursor, output) = translate_from(2, "move -3 !");
    assert_eq!(result, Err(ParseError::CursorUnderflow));
    assert_eq!(cursor, 2);
    assert_eq!(output, "");
}

#[test]
fn move_past_the_last_cell_is_rejected() {
    let (result, cursor, output) = translate_from(usize::MAX, "move +1");
    assert_eq!(result, Err(ParseError::CursorOverflow));
    assert_eq!(cursor, usize::MAX);
    assert_eq!(output, "");
    let (result, cursor, output) = translate_from(usize::MAX, ">");
    assert_eq!(result, Err(ParseError::CursorOverflow));
    assert_eq!(cursor, usize::MAX);
    assert_eq!(output, "");
    let (result, cursor, output) = translate_from(usize::MAX - 2, "putw 3");
    assert_eq!(result, Err(ParseError::CursorOverflow));
    assert_eq!(cursor, usize::MAX - 2);
    assert_eq!(output, "");
}

#[test]
fn marker_past_the_last_cell_is_rejected_with_nothing_written() {
    let (result, cursor, output) = translate_from(usize::MAX, "put !");
    assert_eq!(result, Err(ParseError::CursorOverflow));
    assert_eq!(cursor, usize::MAX);
    assert_eq!(output, "");
    let (result, cursor, output) = translate_from(usize::MAX - 1, "> !");
    assert_eq!(result, Err(ParseError::CursorOverflow));
    assert_eq!(cursor, usize::MAX - 1);
    assert_eq!(output, "");
    let (result, cursor, output) = translate_from(usize::MAX - 1, "put !");
    assert_eq!(result, Ok(()));
    assert_eq!(cursor, usize::MAX);
    assert_eq!(output, ".>");
}

#[test]
fn empty_and_blank_lines_are_rejected() {
    for line in ["", " ", "   ", "\t", " \t \r", "\u{3000}\u{a0}"] {
        let (results, cursor, output) = translate(&[line]);
        assert_eq!(results, vec![Err(ParseError::EmptyLine)]);
        assert_eq!(cursor, 0);
        assert_eq!(output, "");
    }
}

#[test]
fn missing_argument_is_rejected() {
    for line in ["move", "store", "storec", "putw", "  move  ", "putw\t"] {
        let (results, cursor, output) = translate(&[line]);
        assert_eq!(results, vec![Err(ParseError::MissingArgument)]);
        assert_eq!(cursor, 0);
        assert_eq!(output, "");
    }
}

#[test]
fn missing_prefix_is_rejected_even_with_good_digits() {
    for line in ["move 5", "store 5", "move x5", "store =5", "move !", "store 12!"] {
        let (results, cursor, output) = translate(&[line]);
        assert_eq!(results, vec![Err(ParseError::InvalidPrefix)]);
        assert_eq!(cursor, 0);
        assert_eq!(output, "");
    }
}

#[test]
fn empty_character_is_rejected() {
    let (results, cursor, output) = translate(&["storec !"]);
    assert_eq!(results, vec![Err(ParseError::InvalidCharacter)]);
    assert_eq!(cursor, 0);
    assert_eq!(output, "");
}

#[test]
fn unknown_keywords_are_rejected() {
    for line in ["Move :1", "mov :1", "put!", ">!", "!", "puts", "storech a", ">>", "<"] {
        let (results, cursor, output) = translate(&[line]);
        assert_eq!(results, vec![Err(ParseError::UnknownCommand)], "line {:?}", line);
        assert_eq!(cursor, 0);
        assert_eq!(output, "");
    }
}

#[test]
fn a_failed_line_leaves_earlier_work_untouched() {
    let (results, cursor, output) = translate(&["move :2", "banana", "store", "put"]);
    assert_eq!(
        results,
        vec![Ok(()), Err(ParseError::UnknownCommand), Err(ParseError::MissingArgument), Ok(())]
    );
    assert_eq!(cursor, 2);
    assert_eq!(output, ">>.");
}

#[test]
fn move_commands() {
    let (results, cursor, output) = translate(&["move :3", "move +4", "move -5", "move :2"]);
    assert_eq!(results, vec![Ok(()); 4]);
    assert_eq!(cursor, 2);
    assert_eq!(output, ">>>>>>><<<<<");
    let (result, cursor, output) = translate_from(4, "move :4");
    assert_eq!(result, Ok(()));
    assert_eq!(cursor, 4);
    assert_eq!(output, "");
}

#[test]
fn store_commands() {
    let (results, cursor, output) = translate(&["store :3", "store +2", "store -4", "store :0"]);
    assert_eq!(results, vec![Ok(()); 4]);
    assert_eq!(cursor, 0);
    assert_eq!(output, "[-]+++++----[-]");
}

#[test]
fn storec_takes_the_first_character() {
    let (_, cursor, output) = translate(&["storec A"]);
    assert_eq!(cursor, 0);
    assert_eq!(output, format!("[-]{}", "+".repeat(65)));
    let (_, _, output) = translate(&["storec hello"]);
    assert_eq!(output, format!("[-]{}", "+".repeat(104)));
    let (_, cursor, output) = translate(&["storec !!"]);
    assert_eq!(cursor, 1);
    assert_eq!(output, format!("[-]{}>", "+".repeat(33)));
    let (_, cursor, output) = translate(&["storec !x"]);
    assert_eq!(cursor, 0);
    assert_eq!(output, format!("[-]{}", "+".repeat(33)));
}

#[test]
fn storec_space() {
    let (results, cursor, output) = translate(&["storec <space>"]);
    assert_eq!(results, vec![Ok(())]);
    assert_eq!(cursor, 0);
    assert_eq!(output, format!("[-]{}", "+".repeat(32)));
    let (results, cursor, output) = translate(&["storec <space>!"]);
    assert_eq!(results, vec![Ok(())]);
    assert_eq!(cursor, 1);
    assert_eq!(output, format!("[-]{}>", "+".repeat(32)));
    let (_, _, output) = translate(&["storec <space>x"]);
    assert_eq!(output, format!("[-]{}", "+".repeat(60)));
}

#[test]
fn storec_keeps_the_low_byte_of_a_wide_character() {
    let (_, _, output) = translate(&["storec \u{e9}"]);
    assert_eq!(output, format!("[-]{}", "+".repeat(0xe9)));
    let (_, _, output) = translate(&["storec \u{20ac}"]);
    assert_eq!(output, format!("[-]{}", "+".repeat(0xac)));
    let (_, _, output) = translate(&["storec \u{100}"]);
    assert_eq!(output, "[-]");
}

#[test]
fn put_and_advance() {
    let (results, cursor, output) = translate(&["put", ">", "put", ">"]);
    assert_eq!(results, vec![Ok(()); 4]);
    assert_eq!(cursor, 2);
    assert_eq!(output, ".>.>");
}

#[test]
fn putw_count_advances_by_count() {
    let (results, cursor, output) = translate(&["putw 3"]);
    assert_eq!(results, vec![Ok(())]);
    assert_eq!(cursor, 3);
    assert_eq!(output, ".>.>.>");
    let (results, cursor, output) = translate(&["putw 0"]);
    assert_eq!(results, vec![Ok(())]);
    assert_eq!(cursor, 0);
    assert_eq!(output, "");
    let (result, cursor, output) = translate_from(7, "putw 2 !");
    assert_eq!(result, Ok(()));
    assert_eq!(cursor, 10);
    assert_eq!(output, ".>.>>");
}

#[test]
fn putw_star_leaves_the_cursor() {
    let (result, cursor, output) = translate_from(4, "putw *");
    assert_eq!(result, Ok(()));
    assert_eq!(cursor, 4);
    assert_eq!(output, "[.>]");
    let (result, cursor, output) = translate_from(4, "putw * !");
    assert_eq!(result, Ok(()));
    assert_eq!(cursor, 5);
    assert_eq!(output, "[.>]>");
}

#[test]
fn arguments_that_are_no_number_are_ignored() {
    for line in ["move :abc", "move :", "move +", "move -x", "move :-5", "move :5x", "store :1.5",
        "store +", "store :99999999999999999999999999", "putw x", "putw -1", "putw **"]
    {
        let (result, cursor, output) = translate_from(9, line);
        assert_eq!(result, Ok(()), "line {:?}", line);
        assert_eq!(cursor, 9);
        assert_eq!(output, "");
    }
}

#[test]
fn a_marker_glued_to_a_number_spoils_the_number() {
    let (result, cursor, output) = translate_from(2, "move :5!");
    assert_eq!(result, Ok(()));
    assert_eq!(cursor, 3);
    assert_eq!(output, ">");
    let (result, cursor, output) = translate_from(2, "putw 3!");
    assert_eq!(result, Ok(()));
    assert_eq!(cursor, 3);
    assert_eq!(output, ">");
    let (result, cursor, output) = translate_from(2, "putw *!");
    assert_eq!(result, Ok(()));
    assert_eq!(cursor, 3);
    assert_eq!(output, ">");
}

#[test]
fn numbers_may_carry_a_plus_sign_and_leading_zeros() {
    let (_, cursor, output) = translate(&["move :+5"]);
    assert_eq!(cursor, 5);
    assert_eq!(output, ">>>>>");
    let (_, cursor, _) = translate(&["move ++5"]);
    assert_eq!(cursor, 5);
    let (_, cursor, _) = translate(&["move :007"]);
    assert_eq!(cursor, 7);
    let (_, cursor, _) = translate(&["putw +2"]);
    assert_eq!(cursor, 2);
    let (result, cursor, _) = translate_from(1, "move +++5");
    assert_eq!(result, Ok(()));
    assert_eq!(cursor, 1);
}

#[test]
fn the_largest_cell_number_is_read() {
    let line = format!("store -{}", usize::MAX);
    let command = lessbrainfuck::command::parse_command(&line);
    assert_eq!(command, Ok(lessbrainfuck::command::Command::StoreSub(usize::MAX)));
    let line = format!("store -{}0", usize::MAX);
    let command = lessbrainfuck::command::parse_command(&line);
    assert_eq!(command, Ok(lessbrainfuck::command::Command::Ignored));
}

#[test]
fn marker_adds_one_step_to_the_same_line() {
    for bare in ["put ", "put", "storec h", "move :5 ", "store +2 ", "> ", "putw 2 ", "putw * ",
        "storec <space>", "put x", "move :5 x"]
    {
        let marked = format!("{}!", bare);
        if bare == "put" {
            // `put!` is no keyword.
            let (result, _, _) = translate_from(3, &marked);
            assert_eq!(result, Err(ParseError::UnknownCommand));
            continue;
        }
        let (plain_result, plain_cursor, plain_output) = translate_from(3, bare);
        let (result, cursor, output) = translate_from(3, &marked);
        assert_eq!(plain_result, Ok(()), "line {:?}", bare);
        assert_eq!(result, Ok(()), "line {:?}", marked);
        assert_eq!(cursor, plain_cursor + 1, "line {:?}", marked);
        assert_eq!(output, format!("{}>", plain_output), "line {:?}", marked);
    }
}

#[test]
fn white_space_after_the_marker_hides_it() {
    let (result, cursor, output) = translate_from(3, "put ! ");
    assert_eq!(result, Ok(()));
    assert_eq!(cursor, 3);
    assert_eq!(output, ".");
}

#[test]
fn any_white_space_separates_tokens() {
    let (results, cursor, output) = translate(&["  move\t:2  ", "store\u{3000}+1", "\u{a0}put\r"]);
    assert_eq!(results, vec![Ok(()); 3]);
    assert_eq!(cursor, 2);
    assert_eq!(output, ">>+.");
}

#[test]
fn tokens_after_the_argument_are_not_read() {
    let (results, cursor, output) = translate(&["move :2 and more", "put now", "> >"]);
    assert_eq!(results, vec![Ok(()); 3]);
    assert_eq!(cursor, 3);
    assert_eq!(output, ">>.>");
}

#[test]
fn cursor_carries_over_from_line_to_line() {
    let mut transpiler = Transpiler::new();
    {
        let mut parser = Parser::new(&mut transpiler);
        assert_eq!(parser.parse_line("move :3"), Ok(()));
    }
    assert_eq!(transpiler.pointer, 3);
    {
        let mut parser = Parser::new(&mut transpiler);
        assert_eq!(parser.parse_line("move +2"), Ok(()));
        assert_eq!(parser.parse_line("storec a!"), Ok(()));
    }
    assert_eq!(transpiler.pointer, 6);
    assert_eq!(transpiler.get_output(), format!(">>>>>[-]{}>", "+".repeat(97)));
}

#[test]
fn a_small_program_prints_its_text() {
    let (results, cursor, output) =
        translate(&["storec H!", "storec i!", "store :0", "move :0", "putw *"]);
    assert_eq!(results, vec![Ok(()); 5]);
    assert_eq!(cursor, 0);
    let (_, at, printed) = run_tape(&output, vec![9, 9, 9]);
    assert_eq!(printed, b"Hi".to_vec());
    assert_eq!(at, 2);
}
