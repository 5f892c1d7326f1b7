use pg_search::text::{chars_of, decimal_of, is_whitespace, parse_i32, split_tokens, string_of};
use pg_search::user_dict::{
    delete_from_user_dict, deletion_message, render_lines, revise_line, split_lines,
    update_message, update_or_add_user_dict, write_entry, DictDeletion, DictUpdate,
    DEFAULT_FREQUENCY,
};

fn chars(text: &str) -> Vec<char> {
    text.chars().collect()
}

fn wanted(words: &[&str]) -> Vec<Option<String>> {
    words.iter().map(|word| Some(word.to_string())).collect()
}

#[test]
fn chars_and_strings_round_trip() {
    let text = "词条 abc\t1";
    assert_eq!(chars_of(text), chars(text));
    assert_eq!(string_of(&chars(text)), text.to_string());
    assert_eq!(string_of(&Vec::new()), String::new());
}

#[test]
fn whitespace_is_what_unicode_says() {
    for code in 0u32..0x3100 {
        if let Some(c) = char::from_u32(code) {
            assert_eq!(is_whitespace(c), c.is_whitespace(), "code {}", code);
        }
    }
    assert!(is_whitespace('\u{3000}'));
    assert!(!is_whitespace('a'));
}

#[test]
fn tokens_are_runs_without_spaces() {
    let none: Vec<Vec<char>> = Vec::new();
    assert_eq!(split_tokens(&chars("")), none);
    assert_eq!(split_tokens(&chars(" \t\u{3000} ")), none);
    assert_eq!(
        split_tokens(&chars("  foo\t12   n ")),
        vec![chars("foo"), chars("12"), chars("n")]
    );
    assert_eq!(split_tokens(&chars("北京\u{3000}100")), vec![chars("北京"), chars("100")]);
    let line = " a bc  def g";
    let std_tokens: Vec<Vec<char>> = line.split_whitespace().map(chars).collect();
    assert_eq!(split_tokens(&chars(line)), std_tokens);
}

#[test]
fn numbers_are_parsed_like_the_standard_library() {
    let cases = [
        "0", "7", "+5", "-5", "-0", "007", "2147483647", "2147483648", "-2147483648",
        "-2147483649", "99999999999999999999", "0000000000000000000001", "", "+", "-", "1a",
        "a1", " 1", "1 ", "--1", "+-1", "1_000", "１２",
    ];
    for case in cases {
        assert_eq!(parse_i32(&chars(case)), case.parse::<i32>().ok(), "case {:?}", case);
    }
    assert_eq!(parse_i32(&chars("-2147483648")), Some(i32::MIN));
    assert_eq!(parse_i32(&chars("2147483648")), None);
}

#[test]
fn numbers_are_written_in_decimal() {
    assert_eq!(decimal_of(0), chars("0"));
    assert_eq!(decimal_of(7), chars("7"));
    assert_eq!(decimal_of(1000), chars("1000"));
    assert_eq!(decimal_of(-42), chars("-42"));
    assert_eq!(decimal_of(i32::MIN as i128), chars("-2147483648"));
    assert_eq!(decimal_of(i128::MAX), chars(&i128::MAX.to_string()));
    assert_eq!(decimal_of(i128::MIN), chars(&i128::MIN.to_string()));
}

#[test]
fn lines_are_split_at_line_feeds() {
    let none: Vec<Vec<char>> = Vec::new();
    assert_eq!(split_lines(&chars("")), none);
    assert_eq!(split_lines(&chars("a")), vec![chars("a")]);
    assert_eq!(split_lines(&chars("a\n")), vec![chars("a")]);
    assert_eq!(split_lines(&chars("a\n\n")), vec![chars("a"), chars("")]);
    assert_eq!(split_lines(&chars("\n")), vec![chars("")]);
    assert_eq!(split_lines(&chars("a\r\nb\r")), vec![chars("a"), chars("b\r")]);
    assert_eq!(split_lines(&chars("a\r\r\nb")), vec![chars("a\r"), chars("b")]);
    for text in ["x\ny\nz", "x\r\n\r\ny\n", "\n\nq", "only", "tail\r\n"] {
        let std_lines: Vec<Vec<char>> = text.lines().map(chars).collect();
        assert_eq!(split_lines(&chars(text)), std_lines, "text {:?}", text);
    }
}

#[test]
fn lines_are_rendered_with_a_line_feed_each() {
    assert_eq!(render_lines(&Vec::new()), "");
    assert_eq!(render_lines(&vec![chars("a"), chars(""), chars("b c")]), "a\n\nb c\n");
}

#[test]
fn entries_are_written_with_single_spaces() {
    assert_eq!(write_entry(&chars("foo"), Some(12), &chars("n")), chars("foo 12 n"));
    assert_eq!(write_entry(&chars("foo"), Some(-3), &chars("")), chars("foo -3"));
    assert_eq!(write_entry(&chars("foo"), None, &chars("v")), chars("foo v"));
    assert_eq!(write_entry(&chars("foo"), None, &chars("")), chars("foo"));
}

#[test]
fn a_line_is_revised_only_for_its_own_word() {
    let word = chars("foo");
    assert_eq!(revise_line(&chars("bar 1 n"), &word, Some(5), &None), None);
    assert_eq!(revise_line(&chars("# foo 1 n"), &word, Some(5), &None), None);
    assert_eq!(revise_line(&chars("   "), &word, Some(5), &None), None);
    assert_eq!(revise_line(&chars("foobar 1"), &word, Some(5), &None), None);
    assert_eq!(revise_line(&chars("  foo   1   n  x"), &word, Some(5), &None), Some(chars("foo 5 n")));
    assert_eq!(
        revise_line(&chars("foo 1 n"), &word, None, &Some(chars("v"))),
        Some(chars("foo 1 v"))
    );
    assert_eq!(
        revise_line(&chars("foo n"), &word, None, &Some(chars("v"))),
        Some(chars("foo v"))
    );
    assert_eq!(revise_line(&chars("foo n"), &word, Some(9), &None), Some(chars("foo 9")));
    assert_eq!(
        revise_line(&chars("foo 3 n"), &word, None, &Some(chars(""))),
        Some(chars("foo 3"))
    );
    assert_eq!(revise_line(&chars("foo"), &word, None, &None), Some(chars("foo")));
}

#[test]
fn a_new_word_is_added_at_the_end() {
    assert_eq!(DEFAULT_FREQUENCY, 1000);
    assert_eq!(
        update_or_add_user_dict("", "你好", None, None),
        DictUpdate::Added { content: "你好 1000\n".to_string() }
    );
    assert_eq!(
        update_or_add_user_dict("# words\nfoo 1 n\n", "bar", Some(7), Some("v")),
        DictUpdate::Added { content: "# words\nfoo 1 n\nbar 7 v\n".to_string() }
    );
    assert_eq!(
        update_or_add_user_dict("foo 1 n", "bar", None, Some("v")),
        DictUpdate::Added { content: "foo 1 n\nbar 1000 v\n".to_string() }
    );
    assert_eq!(
        update_or_add_user_dict("foo\r\n\r\n", "bar", Some(-1), None),
        DictUpdate::Added { content: "foo\n\nbar -1\n".to_string() }
    );
}

#[test]
fn a_comment_is_no_entry() {
    assert_eq!(
        update_or_add_user_dict("#foo 1\n  # foo 2\n", "#foo", None, None),
        DictUpdate::Added { content: "#foo 1\n  # foo 2\n#foo 1000\n".to_string() }
    );
    assert_eq!(
        update_or_add_user_dict("# foo 1\n", "foo", Some(3), None),
        DictUpdate::Added { content: "# foo 1\nfoo 3\n".to_string() }
    );
}

#[test]
fn an_entry_is_updated_in_place() {
    assert_eq!(
        update_or_add_user_dict("foo 10 n\nbar 5\n", "foo", Some(20), None),
        DictUpdate::Updated { content: "foo 20 n\nbar 5\n".to_string() }
    );
    assert_eq!(
        update_or_add_user_dict("a 1\n  foo\t10   n  \nb 2", "foo", None, Some("adj")),
        DictUpdate::Updated { content: "a 1\nfoo 10 adj\nb 2\n".to_string() }
    );
    assert_eq!(
        update_or_add_user_dict("foo\n", "foo", None, Some("v")),
        DictUpdate::Updated { content: "foo v\n".to_string() }
    );
    assert_eq!(
        update_or_add_user_dict("foo 10 n\n", "foo", Some(10), Some("n")),
        DictUpdate::Updated { content: "foo 10 n\n".to_string() }
    );
}

#[test]
fn every_entry_of_the_word_is_updated() {
    assert_eq!(
        update_or_add_user_dict("foo 1 a\nbar 2\nfoo x b\n", "foo", Some(9), None),
        DictUpdate::Updated { content: "foo 9 a\nbar 2\nfoo 9 b\n".to_string() }
    );
}

#[test]
fn nothing_changes_when_nothing_is_asked() {
    assert_eq!(update_or_add_user_dict("bar 1\nfoo 10 n\n", "foo", None, None), DictUpdate::Unchanged);
    assert_eq!(update_or_add_user_dict("foo", "foo", None, None), DictUpdate::Unchanged);
}

#[test]
fn update_messages_name_the_word() {
    assert_eq!(
        update_message("foo", &DictUpdate::Unchanged),
        "词条 'foo' 已存在且无需修改，无操作执行"
    );
    assert_eq!(
        update_message("foo", &DictUpdate::Updated { content: String::new() }),
        "词条 'foo' 已更新"
    );
    assert_eq!(
        update_message("你好", &DictUpdate::Added { content: String::new() }),
        "词条 '你好' 已添加"
    );
}

#[test]
fn entries_of_the_given_words_are_deleted() {
    let content = "# dictionary\nfoo 1 n\n\nbar 2\n  foo 3\nbaz\n";
    assert_eq!(
        delete_from_user_dict(content, &wanted(&["foo", "baz"])),
        DictDeletion::Deleted { count: 3, content: "# dictionary\n\nbar 2\n".to_string() }
    );
    assert_eq!(
        delete_from_user_dict(content, &vec![None, Some("bar".to_string()), None]),
        DictDeletion::Deleted {
            count: 1,
            content: "# dictionary\nfoo 1 n\n\n  foo 3\nbaz\n".to_string()
        }
    );
}

#[test]
fn comments_and_blank_lines_survive_a_deletion() {
    assert_eq!(
        delete_from_user_dict("#foo\n \nfoo\n", &wanted(&["#foo", "foo"])),
        DictDeletion::Deleted { count: 1, content: "#foo\n \n".to_string() }
    );
}

#[test]
fn deleting_every_line_leaves_one_line_feed() {
    assert_eq!(
        delete_from_user_dict("foo 1\nbar\n", &wanted(&["bar", "foo"])),
        DictDeletion::Deleted { count: 2, content: "\n".to_string() }
    );
}

#[test]
fn a_deletion_without_words_or_matches_does_nothing() {
    assert_eq!(delete_from_user_dict("foo\n", &Vec::new()), DictDeletion::NothingRequested);
    assert_eq!(delete_from_user_dict("foo\n", &vec![None, None]), DictDeletion::NothingRequested);
    assert_eq!(delete_from_user_dict("foo\n", &wanted(&["bar"])), DictDeletion::NothingFound);
    assert_eq!(delete_from_user_dict("", &wanted(&["bar"])), DictDeletion::NothingFound);
    assert_eq!(delete_from_user_dict("foobar\n", &wanted(&["foo"])), DictDeletion::NothingFound);
}

#[test]
fn deletion_messages_name_count_and_file() {
    assert_eq!(deletion_message(&DictDeletion::NothingRequested, "/x"), "未提供要删除的词条");
    assert_eq!(deletion_message(&DictDeletion::NothingFound, "/x"), "未找到匹配的词条，未进行删除");
    assert_eq!(
        deletion_message(
            &DictDeletion::Deleted { count: 12, content: String::new() },
            "/share/user_dict.txt"
        ),
        "成功删除 12 个词条并保存文件: /share/user_dict.txt"
    );
}
