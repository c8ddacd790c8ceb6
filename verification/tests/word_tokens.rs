use textflow::Word;
use textflow::WordType;

#[test]
fn word_test_1() {
    let text = "Hello, world!".to_string();
    let mut flow = Word::new(&text, 10, 4, 0);

    let word = flow.next().unwrap();
    assert_eq!(word.word_type, WordType::LATIN);
    assert_eq!(word.position.end, 5);
    assert_eq!(&text[word.position.start..word.position.end], "Hello");

    let word = flow.next().unwrap();
    assert_eq!(word.word_type, WordType::CLOSE_PUNCTUATION);
    assert_eq!(word.position.end, 6);
    assert_eq!(&text[word.position.start..word.position.end], ",");

    let word = flow.next().unwrap();
    assert_eq!(word.word_type, WordType::SPACE);
    assert_eq!(word.position.end, 7);
    assert_eq!(&text[word.position.start..word.position.end], " ");

    let word = flow.next().unwrap();
    assert_eq!(word.word_type, WordType::LATIN);
    assert_eq!(word.position.end, 12);
    assert_eq!(&text[word.position.start..word.position.end], "world");

    let word = flow.next().unwrap();
    assert_eq!(word.word_type, WordType::CLOSE_PUNCTUATION);
    assert_eq!(word.position.end, 13);
    assert_eq!(word.position.brk, 10);
    assert_eq!(&text[word.position.start..word.position.end], "!");

    assert_eq!(flow.next(), None);
}

#[test]
fn word_test_2() {
    let text = "".to_string();
    let mut flow = Word::new(&text, 100, 4, 0);

    let word = flow.next();
    assert_eq!(word, None);
}

#[test]
fn word_test_3() {
    let text = "H".to_string();
    let mut flow = Word::new(&text, 100, 4, 0);

    let word = flow.next().unwrap();
    assert_eq!(word.word_type, WordType::LATIN);
    assert_eq!(word.position.end, 1);
    assert_eq!(&text[word.position.start..word.position.end], "H");
}

#[test]
fn word_test_4() {
    let text = "你好\n世界 Hello123 456 ".to_string();

    let mut flow = Word::new(&text, 100, 4, 0);

    let word = flow.next().unwrap();
    assert_eq!(word.word_type, WordType::CJK);
    assert_eq!(word.position.end, 3);
    assert_eq!(&text[word.position.start..word.position.end], "你");

    let word = flow.next().unwrap();
    assert_eq!(word.word_type, WordType::CJK);
    assert_eq!(word.position.end, 6);
    assert_eq!(&text[word.position.start..word.position.end], "好");

    let word = flow.next().unwrap();
    assert_eq!(word.word_type, WordType::NEWLINE);
    assert_eq!(word.position.end, 7);
    assert_eq!(&text[word.position.start..word.position.end], "\n");

    let word = flow.next().unwrap();
    assert_eq!(word.word_type, WordType::CJK);
    assert_eq!(word.position.end, 10);
    assert_eq!(&text[word.position.start..word.position.end], "世");

    let word = flow.next().unwrap();
    assert_eq!(word.word_type, WordType::CJK);
    assert_eq!(word.position.end, 13);
    assert_eq!(&text[word.position.start..word.position.end], "界");

    let word = flow.next().unwrap();
    assert_eq!(word.word_type, WordType::SPACE);
    assert_eq!(word.position.end, 14);
    assert_eq!(&text[word.position.start..word.position.end], " ");

    let word = flow.next().unwrap();
    assert_eq!(word.word_type, WordType::LATIN);
    assert_eq!(word.position.end, 22);
    assert_eq!(&text[word.position.start..word.position.end], "Hello123");

    let word = flow.next().unwrap();
    assert_eq!(word.word_type, WordType::SPACE);
    assert_eq!(word.position.end, 23);
    assert_eq!(&text[word.position.start..word.position.end], " ");

    let word = flow.next().unwrap();
    assert_eq!(word.word_type, WordType::NUMBER);
    assert_eq!(word.position.end, 26);
    assert_eq!(&text[word.position.start..word.position.end], "456");

    let word = flow.next().unwrap();
    assert_eq!(word.word_type, WordType::SPACE);
    assert_eq!(word.position.end, 27);
    assert_eq!(&text[word.position.start..word.position.end], " ");

    assert_eq!(flow.next(), None);
}

#[test]
fn word_test_5() {
    let punc_list = vec![
        '.', ',', ';', ':', '!', '?', '(', ')', '[', ']', '{', '}', '。', '，', '、', '？',
        '！', '：', '；', '（', '）', '「', '」', '『', '』', '【', '】', '〔', '〕', '〈',
        '〉', '《', '》',
    ];

    for punc in punc_list {
        let lbc = WordType::from(punc);
        println!("{:?}", lbc);
    }
}

#[test]
fn word_test_6() {
    let text = ">》〉".to_string();
    let mut flow = Word::new(&text, 4, 4, 0);

    let word = flow.next().unwrap();
    assert_eq!(word.word_type, WordType::CLOSE_PUNCTUATION);
    assert_eq!(word.position.end, 7);
    assert_eq!(word.position.brk, 4);
    assert_eq!(&text[word.position.start..word.position.brk], ">》");
}

#[test]
fn word_test_7() {
    let text = "     ".to_string();
    let mut flow = Word::new(&text, 4, 4, 0);

    let word = flow.next().unwrap();
    assert_eq!(word.word_type, WordType::SPACE);
    assert_eq!(word.position.end, 5);
    assert_eq!(&text[word.position.start..word.position.brk], "    ");
}

#[test]
fn word_budget_carries_between_tokens() {
    // The budget is charged per token: after "Hello" (5 cells) of a budget
    // of 10, the comma and space leave 3, so "world" records its break after
    // "wor".
    let text = "Hello, world!";
    let mut flow = Word::new(text, 10, 4, 0);
    flow.next();
    flow.next();
    flow.next();
    let word = flow.next().unwrap();
    assert_eq!(&text[word.position.start..word.position.end], "world");
    assert_eq!(word.position.brk, 10);
    assert_eq!(word.real_width, 3);
    assert_eq!(word.ideal_width, 5);
}

#[test]
fn word_remaining_width_accessors() {
    let mut flow = Word::new("abc def", 10, 4, 0);
    assert_eq!(flow.get_remaining_width(), 10);
    let word = flow.next().unwrap();
    assert_eq!(word.ideal_width, 3);
    assert_eq!(flow.get_remaining_width(), 7);
    flow.set_remaining_width(2);
    assert_eq!(flow.get_remaining_width(), 2);
}

#[test]
fn word_hyphen_does_not_merge_with_letters() {
    let text = "text-test";
    let mut flow = Word::new(text, 100, 4, 0);
    let w = flow.next().unwrap();
    assert_eq!(&text[w.position.start..w.position.end], "text");
    let w = flow.next().unwrap();
    assert_eq!(w.word_type, WordType::HYPHEN);
    assert_eq!(&text[w.position.start..w.position.end], "-");
    let w = flow.next().unwrap();
    assert_eq!(&text[w.position.start..w.position.end], "test");
}

#[test]
fn word_latin_merges_digits_but_not_conversely() {
    let text = "ab12 12ab";
    let mut flow = Word::new(text, 100, 4, 0);
    let w = flow.next().unwrap();
    assert_eq!(&text[w.position.start..w.position.end], "ab12");
    assert_eq!(w.word_type, WordType::LATIN);
    flow.next();
    let w = flow.next().unwrap();
    assert_eq!(&text[w.position.start..w.position.end], "12");
    assert_eq!(w.word_type, WordType::NUMBER);
    let w = flow.next().unwrap();
    assert_eq!(&text[w.position.start..w.position.end], "ab");
}

#[test]
fn word_tab_width_is_configurable() {
    let text = "\t";
    let mut flow = Word::new(text, 100, 7, 0);
    let w = flow.next().unwrap();
    assert_eq!(w.word_type, WordType::TAB);
    assert_eq!(w.ideal_width, 7);
}
