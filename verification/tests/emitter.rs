use lessbrainfuck::transpiler::Transpiler;

/// A small machine for straight-line text and the zero idiom: returns the
/// value of cell zero and what was printed.
fn run_cell(code: &str, start: u8) -> (u8, Vec<u8>) {
    let code: Vec<char> = code.chars().collect();
    let mut cell = start;
    let mut printed = Vec::new();
    let mut pc = 0;
    while pc < code.len() {
        match code[pc] {
            '+' => cell = cell.wrapping_add(1),
            '-' => cell = cell.wrapping_sub(1),
            '.' => printed.push(cell),
            '[' => {
                assert_eq!(&code[pc..pc + 3], &['[', '-', ']']);
                if cell == 0 {
                    pc += 2;
                }
            }
            ']' => {
                if cell != 0 {
                    pc -= 2;
                }
            }
            other => panic!("not expected here: {}", other),
        }
        pc += 1;
    }
    (cell, printed)
}

#[test]
fn new_emitter_is_empty() {
    let transpiler = Transpiler::new();
    assert_eq!(transpiler.pointer, 0);
    assert_eq!(transpiler.output, "");
    assert_eq!(transpiler.get_output(), "");
}

#[test]
fn move_to_writes_the_distance() {
    let mut t = Transpiler::new();
    t.move_to(3);
    assert_eq!(t.pointer, 3);
    assert_eq!(t.output, ">>>");
    t.move_to(7);
    assert_eq!(t.pointer, 7);
    assert_eq!(t.output, ">>>>>>>");
    t.move_to(2);
    assert_eq!(t.pointer, 2);
    assert_eq!(t.output, ">>>>>>><<<<<");
    t.move_to(2);
    assert_eq!(t.pointer, 2);
    assert_eq!(t.output, ">>>>>>><<<<<");
    t.move_to(0);
    assert_eq!(t.pointer, 0);
    assert_eq!(t.output, ">>>>>>><<<<<<<");
}

#[test]
fn two_moves_write_the_gap_between_their_targets() {
    for (a, b) in [(0usize, 0usize), (0, 4), (4, 0), (9, 12), (12, 9), (5, 5)] {
        let mut t = Transpiler::new();
        t.move_to(a);
        let before = t.output.len();
        t.move_to(b);
        assert_eq!(t.pointer, b);
        let written = &t.output[before..];
        assert_eq!(written.len(), a.abs_diff(b));
        let step = if b >= a { '>' } else { '<' };
        assert!(written.chars().all(|c| c == step));
    }
}

#[test]
fn store_exact_zeroes_then_counts_up() {
    let mut t = Transpiler::new();
    t.store_exact(4);
    assert_eq!(t.pointer, 0);
    assert_eq!(t.output, "[-]++++");
    t.store_exact(0);
    assert_eq!(t.output, "[-]++++[-]");
}

#[test]
fn store_exact_then_put_prints_the_value_whatever_was_there() {
    for start in [0u8, 1, 200, 255] {
        for value in [0usize, 1, 65, 255, 256, 300] {
            let mut t = Transpiler::new();
            t.store_exact(value);
            t.put();
            let (cell, printed) = run_cell(&t.output, start);
            assert_eq!(cell, (value % 256) as u8);
            assert_eq!(printed, vec![(value % 256) as u8]);
        }
    }
}

#[test]
fn store_exact_twice_is_store_exact_once() {
    for start in [0u8, 3, 255] {
        let mut once = Transpiler::new();
        once.store_exact(10);
        let mut twice = Transpiler::new();
        twice.store_exact(10);
        twice.store_exact(10);
        assert_eq!(twice.output, "[-]++++++++++[-]++++++++++");
        assert_eq!(run_cell(&once.output, start), run_cell(&twice.output, start));
        assert_eq!(run_cell(&twice.output, start).0, 10);
    }
}

#[test]
fn store_add_composes() {
    let mut split = Transpiler::new();
    split.store_add(2);
    split.store_add(3);
    let mut whole = Transpiler::new();
    whole.store_add(5);
    assert_eq!(split.output, "+++++");
    assert_eq!(split.output, whole.output);
    assert_eq!(split.pointer, whole.pointer);
    assert_eq!(run_cell(&split.output, 254).0, 3);
}

#[test]
fn store_add_and_sub_do_not_zero_the_cell() {
    let mut t = Transpiler::new();
    t.store_add(3);
    assert_eq!(t.output, "+++");
    t.store_sub(2);
    assert_eq!(t.output, "+++--");
    t.store_add(0);
    t.store_sub(0);
    assert_eq!(t.output, "+++--");
    assert_eq!(t.pointer, 0);
    assert_eq!(run_cell(&t.output, 7).0, 8);
    assert_eq!(run_cell("---", 1).0, 254);
}

#[test]
fn store_char_stores_the_low_byte() {
    let mut t = Transpiler::new();
    t.store_char('h');
    assert_eq!(t.output, format!("[-]{}", "+".repeat(104)));
    let mut t = Transpiler::new();
    t.store_char(' ');
    assert_eq!(t.output, format!("[-]{}", "+".repeat(32)));
    let mut t = Transpiler::new();
    t.store_char('\0');
    assert_eq!(t.output, "[-]");
    let mut t = Transpiler::new();
    t.store_char('\u{20ac}');
    assert_eq!(t.output, format!("[-]{}", "+".repeat(0xac)));
    let mut t = Transpiler::new();
    t.store_char('\u{10ffff}');
    assert_eq!(t.output, format!("[-]{}", "+".repeat(0xff)));
}

#[test]
fn store_vec_stores_each_byte_and_steps_right() {
    let mut t = Transpiler::new();
    t.move_to(1);
    t.store_vec(vec![1, 0, 2]);
    assert_eq!(t.pointer, 4);
    assert_eq!(t.output, ">[-]+>[-]>[-]++>");
    let mut t = Transpiler::new();
    t.store_vec(vec![]);
    assert_eq!(t.pointer, 0);
    assert_eq!(t.output, "");
}

#[test]
fn put_writes_one_print() {
    let mut t = Transpiler::new();
    t.put();
    t.put();
    assert_eq!(t.pointer, 0);
    assert_eq!(t.output, "..");
}

#[test]
fn put_multiple_prints_and_steps() {
    let mut t = Transpiler::new();
    t.move_to(2);
    t.put_multiple(3);
    assert_eq!(t.pointer, 5);
    assert_eq!(t.output, ">>.>.>.>");
    t.put_multiple(0);
    assert_eq!(t.pointer, 5);
    assert_eq!(t.output, ">>.>.>.>");
    t.put_multiple(1);
    assert_eq!(t.pointer, 6);
    assert_eq!(t.output, ">>.>.>.>.>");
}

#[test]
fn put_until_null_writes_the_loop_and_keeps_the_cursor() {
    let mut t = Transpiler::new();
    t.move_to(2);
    t.put_until_null();
    assert_eq!(t.pointer, 2);
    assert_eq!(t.output, ">>[.>]");
}

#[test]
fn output_only_grows() {
    let mut t = Transpiler::new();
    let mut seen = String::new();
    t.move_to(2);
    assert!(t.output.starts_with(&seen));
    seen = t.output.clone();
    t.store_exact(3);
    assert!(t.output.starts_with(&seen));
    seen = t.output.clone();
    t.put_multiple(2);
    assert!(t.output.starts_with(&seen));
    seen = t.output.clone();
    t.move_to(0);
    assert!(t.output.starts_with(&seen));
    seen = t.output.clone();
    t.put_until_null();
    assert!(t.output.starts_with(&seen));
    assert_eq!(t.output, ">>[-]+++.>.><<<<[.>]");
}
