use textflow::Line;

// Drives a line stream over `text` with the given width and flags, printing
// each rendered line padded to the target width beside its byte range.
fn run_flow(text: &str, n: usize, flags: u16) {
    let mut flow = Line::new(text, n, 4).with_long_break(true).with_flags(flags);

    while let Some(line) = flow.next() {
        let lo = line.position.start;
        let hi = line.position.brk.min(line.position.end);
        let mut display = text[lo..hi].trim_end_matches('\n').to_owned();
        let shown = display.chars().fold(
            0,
            |acc, ch| if ch.is_ascii() {
                acc + 1
            } else {
                acc + 2
            },
        );
        for _ in shown..n {
            display.push(' ');
        }
        println!("{}| [{:3?})", display, line.position.start..line.position.end);
    }
    println!();
}

#[test]
fn test_line_1() {
    run_flow("The quick brown fox jumps over a lazy dog.", 15, 0);
}

#[test]
fn test_line_2() {
    run_flow("八百标兵奔北坡炮兵并排北边跑666中英文测试。The quick brown fox jumps over a lazy dog. abcdefghijklmnopq rstuvwxyz", 14, 0);
}

#[test]
fn test_line_3() {
    run_flow(
        "为了提供更好的服务和服务。\n请您在使用前充分阅读《TextFlowwwwwwwwwwwwwwwwww 使用隐私 Policy》",
        25,
        0,
    );
}

#[test]
fn test_line_4() {
    run_flow("《Loooooooooooooooong Text》", 20, 0);
}

#[test]
fn test_line_5() {
    run_flow("This is a Text》〉>?!", 20, 0);
    run_flow("<〈《Teext a>>>", 12, 0);
    run_flow("<〈《Tee<ext><>>", 12, 0);
    run_flow("<〈《Tee<eext><>>", 12, 0);
    run_flow("<〈<<《你》>", 10, 0);
    run_flow("<〈<<《Loooooo｜ong>>", 14, 0);
    run_flow("this is aaaa \"text word\" test", 15, 0);
    run_flow("this is a \"text word\" test", 15, 0);
    run_flow("this is a <text> test", 15, 0);
    run_flow("this is a text-test", 15, 0);
    run_flow("实时操作系统 Nuttx》。", 20, 0);
}

#[test]
fn test_line_6() {
    for i in 1..=15 {
        run_flow("an \"apple\" tree", i, 0);
    }
}

#[test]
fn test_line_7() {
    run_flow("abc,    bcd, efg  bc", 5, 0);
    run_flow("abc,\n    bcd, efg  bc", 5, 0);
    run_flow("an    apple         \"is\" a fruit", 1, 0);
    run_flow("anyone can be able to", 13, 0);
}

#[test]
fn test_line_8() {
    run_flow("a book named 《<《「Wow》>」", 27, 0);
}

#[test]
fn test_line_9() {
    run_flow("b  \n\n     a", 2, 0);
}

#[test]
fn test_line_10() {
    run_flow("\"abc     aa", 2, 0);
}

#[test]
fn test_line_11() {
    run_flow("f abcdefghijklmnopq", 10, 1);
}

#[test]
fn line_builders_take_effect() {
    let text = "Hello, world!";
    let mut flow = Line::new(text, 3, 0).with_max_width(10).with_tab_width(4).with_long_break(
        true,
    ).with_flags(0);
    let line = flow.next().unwrap();
    let hi = line.position.brk.min(line.position.end);
    assert_eq!(&text[line.position.start..hi], "Hello,");
}

#[test]
fn line_without_long_break_still_splits_later_words() {
    // With long-break off, a leading over-wide word is not split in place;
    // the break settles where the following word overflows.
    let text = "ab,";
    let mut flow = Line::new(text, 1, 0);
    let line = flow.next().unwrap();
    assert_eq!(line.position.start, 0);
    assert!(line.position.brk >= 1);
}
