use textflow::TextFlow;

// Renders the whole flow and compares each line against the expected
// slices, in order.
fn check_flow(text: &str, max_width: usize, expected: &[&str]) {
    let mut flow = TextFlow::new(text, max_width);
    let mut i = 0;
    while let Some(line) = flow.next() {
        assert_eq!(line.slices(text), expected[i], "line {} differs", i);
        i += 1;
    }
    assert_eq!(i, expected.len(), "number of lines differs");
}

#[test]
fn testcase_suit_1_test_1() {
    let text = "Hello, world!";
    let max_width = 10;
    let mut flow = TextFlow::new(text, max_width);

    let line = flow.next();
    println!("{:#?}", line);
    let line = flow.next();
    println!("{:#?}", line);
}

#[test]
fn testcase_suit_1_test_2() {
    let text = "Hello, world!";
    let max_width = 10;
    let mut flow = TextFlow::new(text, max_width);

    assert_eq!(flow.next().map(|l| l.slices(text)), Some("Hello,"));
    assert_eq!(flow.next().map(|l| l.slices(text)), Some("world!"));
    assert_eq!(flow.next().map(|l| l.slices(text)), None);
    assert_eq!(flow.next().map(|l| l.slices(text)), None);
}

#[test]
fn testcase_suit_1_test_3() {
    check_flow("你好中国", 2, &["你", "好", "中", "国"]);
}

#[test]
fn testcase_suit_1_test_4() {
    check_flow("Hello, world!", 10, &["Hello,", "world!"]);
}

#[test]
fn testcase_suit_1_test_5() {
    check_flow("Hello, world!", 3, &["Hel", "lo,", "wor", "ld!"]);
}

#[test]
fn testcase_suit_1_test_6() {
    check_flow("This is a Text》〉>?!", 20, &["This is a", "Text》〉>?!"]);
}

#[test]
fn testcase_suit_1_test_7() {
    check_flow("<〈《Teext a>>>", 12, &["<〈《Teext", "a>>>"]);
}

#[test]
fn test_8() {
    check_flow("<〈《Tee<ext><>>", 12, &["<〈《Tee", "<ext><>>"]);
}

#[test]
fn test_9() {
    check_flow("<〈《Tee<eext><>>", 12, &["<〈《Tee", "<eext><>>"]);
}

#[test]
fn test_10() {
    check_flow("<〈<<《你》>", 10, &["<〈<<《你", "》>"]);
}

#[test]
fn test_11() {
    check_flow("<〈<<《Loooooo｜ong>>", 14, &["<〈<<《Loooooo", "｜ong>>"]);
}

#[test]
fn test_12() {
    check_flow(
        "this is aaaa \"text word\" test",
        15,
        &["this is aaaa", "\"text word\"", "test"],
    );
}

#[test]
fn test_13() {
    check_flow("this is a \"text word\" test", 15, &["this is a \"text", "word\" test"]);
}

#[test]
fn test_14() {
    check_flow("this is a <text> test", 15, &["this is a", "<text> test"]);
}

#[test]
fn test_15() {
    check_flow("this is a text-test", 15, &["this is a text-", "test"]);
}

#[test]
fn test_16() {
    check_flow("实时操作系统 Nuttx》。", 20, &["实时操作系统", "Nuttx》。"]);
}

#[test]
fn test_17() {
    check_flow(
        "The quick brown fox jumps over a lazy dog.",
        15,
        &["The quick brown", "fox jumps over", "a lazy dog."],
    );
}

#[test]
fn test_18() {
    check_flow(
        "八百标兵奔北坡炮兵并排北边跑666中英文测试。The quick brown fox jumps over a lazy dog. abcdefghijklmnopq rstuvwxyz",
        14,
        &[
            "八百标兵奔北坡",
            "炮兵并排北边跑",
            "666中英文测",
            "试。The quick",
            "brown fox",
            "jumps over a",
            "lazy dog.",
            "abcdefghijklmn",
            "opq rstuvwxyz",
        ],
    );
}

#[test]
fn test_19() {
    check_flow(
        "为了提供更好的服务和服务。\n请您在使用前充分阅读《TextFlowwwwwwwwwwwwwwwwww 使用隐私 Policy》",
        25,
        &[
            "为了提供更好的服务和服",
            "务。",
            "请您在使用前充分阅读",
            "《TextFlowwwwwwwwwwwwwwww",
            "ww 使用隐私 Policy》",
        ],
    );
}

#[test]
fn test_20() {
    check_flow("《Loooooooooooooooong Text》", 20, &["《Loooooooooooooooon", "g Text》"]);
}

#[test]
fn test_21() {
    check_flow("abc, bcd, efg  bc", 5, &["abc,", "bcd,", "efg", "bc"]);
}

#[test]
fn test_22() {
    check_flow(
        "an    apple         \"is\" a fruit",
        1,
        &[
            "a", "n", "a", "p", "p", "l", "e", "\"", "i", "s", "\"", "a", "f", "r", "u", "i",
            "t",
        ],
    );
}

#[test]
fn test_23() {
    check_flow("a book named 《<《「Wow》>」", 27, &["a book named", "《<《「Wow》>」"]);
}

#[test]
fn test_24() {
    check_flow("a book named \"various", 13, &["a book named", "\"various"]);
}
