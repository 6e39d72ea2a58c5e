use rush::number::{write_decimal, write_signed_decimal};
use rush::parser::{parse_cmd, ParseError};
use rush::text::{is_white_space, same, split, trim};

#[test]
fn test_parse_cmd_pipe() {
    assert_eq!(
        parse_cmd("ls -l | grep .rs").unwrap(),
        vec![("ls", vec!["ls", "-l"]), ("grep", vec!["grep", ".rs"]),]
    );
    assert_eq!(
        parse_cmd("ls -l | grep .rs | wc -l").unwrap(),
        vec![
            ("ls", vec!["ls", "-l"]),
            ("grep", vec!["grep", ".rs"]),
            ("wc", vec!["wc", "-l"]),
        ]
    );
    assert_eq!(
        parse_cmd("ls -l | grep .rs | wc -l | grep 1").unwrap(),
        vec![
            ("ls", vec!["ls", "-l"]),
            ("grep", vec!["grep", ".rs"]),
            ("wc", vec!["wc", "-l"]),
            ("grep", vec!["grep", "1"]),
        ]
    );
    assert_eq!(
        parse_cmd("ls -l | grep .rs | wc -l | grep 1 | wc -l").unwrap(),
        vec![
            ("ls", vec!["ls", "-l"]),
            ("grep", vec!["grep", ".rs"]),
            ("wc", vec!["wc", "-l"]),
            ("grep", vec!["grep", "1"]),
            ("wc", vec!["wc", "-l"]),
        ]
    );
}

#[test]
fn test_parse_cmd_redir() {
    assert_eq!(
        parse_cmd("ls -l > out.txt").unwrap(),
        vec![("ls", vec!["ls", "-l"]), (">", vec![">", "out.txt"]),]
    );

    assert_eq!(
        parse_cmd("ls -l > out.txt | grep .rs").unwrap(),
        vec![
            ("ls", vec!["ls", "-l"]),
            (">", vec![">", "out.txt"]),
            ("grep", vec!["grep", ".rs"]),
        ]
    );

    assert_eq!(
        parse_cmd("ls -l | grep .rs > out.txt").unwrap(),
        vec![
            ("ls", vec!["ls", "-l"]),
            ("grep", vec!["grep", ".rs"]),
            (">", vec![">", "out.txt"]),
        ]
    );

    assert_eq!(
        parse_cmd("ls -l | grep .rs > out.txt | wc -l").unwrap(),
        vec![
            ("ls", vec!["ls", "-l"]),
            ("grep", vec!["grep", ".rs"]),
            (">", vec![">", "out.txt"]),
            ("wc", vec!["wc", "-l"]),
        ]
    );

    assert_eq!(
        parse_cmd("ls -l | grep .rs | wc -l > out.txt").unwrap(),
        vec![
            ("ls", vec!["ls", "-l"]),
            ("grep", vec!["grep", ".rs"]),
            ("wc", vec!["wc", "-l"]),
            (">", vec![">", "out.txt"]),
        ]
    );
}

#[test]
fn one_word_has_no_arguments() {
    assert_eq!(parse_cmd("ls").unwrap(), vec![("ls", vec![])]);
    assert_eq!(parse_cmd("  ls\t").unwrap(), vec![("ls", vec![])]);
    assert_eq!(parse_cmd(">").unwrap(), vec![(">", vec![])]);
}

#[test]
fn blank_parts_name_the_empty_command() {
    assert_eq!(parse_cmd("").unwrap(), vec![("", vec![])]);
    assert_eq!(parse_cmd("|").unwrap(), vec![("", vec![]), ("", vec![])]);
    assert_eq!(
        parse_cmd("ls | | wc").unwrap(),
        vec![("ls", vec![]), ("", vec![]), ("wc", vec![])]
    );
}

#[test]
fn several_spaces_give_empty_words() {
    assert_eq!(
        parse_cmd("ls   -l").unwrap(),
        vec![("ls", vec!["ls", "", "", "-l"])]
    );
    assert_eq!(
        parse_cmd("ls\t-l  x").unwrap(),
        vec![("ls\t-l", vec!["ls\t-l", "", "x"])]
    );
}

#[test]
fn redirection_at_the_ends() {
    assert_eq!(
        parse_cmd("> a").unwrap(),
        vec![(">", vec![">", "a"])]
    );
    assert_eq!(
        parse_cmd("> a > b").unwrap(),
        vec![(">", vec![">", "a"]), (">", vec![">", "b"])]
    );
    assert_eq!(
        parse_cmd("ls >").unwrap(),
        vec![("ls", vec!["ls"]), (">", vec![">"])]
    );
    assert_eq!(
        parse_cmd("ls >out").unwrap(),
        vec![("ls", vec!["ls", ">out"])]
    );
    assert_eq!(
        parse_cmd("ls > a b").unwrap(),
        vec![("ls", vec!["ls"]), (">", vec![">", "a", "b"])]
    );
}

#[test]
fn pipes_need_no_spaces() {
    assert_eq!(
        parse_cmd("犬 吠える|猫").unwrap(),
        vec![("犬", vec!["犬", "吠える"]), ("猫", vec![])]
    );
    assert_eq!(
        parse_cmd("a(|)b").unwrap(),
        vec![("a(", vec![]), (")b", vec![])]
    );
}

#[test]
fn parse_error_in_words() {
    assert_eq!(ParseError::NoCommand.text(), "コマンドがありません");
}

#[test]
fn runs_are_the_words_again() {
    let line = "a b > c d > e";
    let mut words: Vec<&str> = Vec::new();
    for (name, args) in parse_cmd(line).unwrap() {
        assert_eq!(name, args[0]);
        words.extend(args);
    }
    assert_eq!(words.join(" "), line);
}

#[test]
fn typed_parts_are_read_back() {
    let parts = vec![vec!["ls", "-l"], vec!["sort"], vec!["wc", ">", "x"]];
    let texts: Vec<String> = parts.iter().map(|p| format!("\t {} \n", p.join(" "))).collect();
    let line = texts.join("|");
    assert_eq!(
        parse_cmd(&line).unwrap(),
        vec![
            ("ls", vec!["ls", "-l"]),
            ("sort", vec![]),
            ("wc", vec!["wc"]),
            (">", vec![">", "x"]),
        ]
    );
}

#[test]
fn white_space_is_that_of_unicode() {
    for n in 0..=0x10ffffu32 {
        if let Some(c) = char::from_u32(n) {
            assert_eq!(is_white_space(c), c.is_whitespace(), "{n:x}");
        }
    }
}

#[test]
fn trim_takes_white_space_from_the_ends() {
    for s in ["", " ", "a", " a", "a ", "\u{3000}a b\u{2003}\t", "\n\r\n", "犬 猫 "] {
        assert_eq!(trim(s), s.trim());
    }
    assert_eq!(trim("\u{200b}a"), "\u{200b}a");
}

#[test]
fn split_gives_every_piece() {
    for s in ["", "|", "a", "a|b", "||a", "a||", "犬|猫|", "a b"] {
        let expected: Vec<&str> = s.split('|').collect();
        assert_eq!(split(s, '|'), expected);
        assert_eq!(split(s, '|').join("|"), s);
    }
    assert_eq!(split(" a  b", ' '), vec!["", "a", "", "b"]);
}

#[test]
fn same_compares_characters() {
    assert!(same("exit", "exit"));
    assert!(same("", ""));
    assert!(!same("exit", "exit "));
    assert!(!same("é", "e\u{301}"));
}

#[test]
fn numbers_in_decimal_notation() {
    for n in [0, 7, 9, 10, 11, 99, 100, 1234567890, u64::MAX] {
        assert_eq!(write_decimal(n), n.to_string());
    }
    for n in [0, -1, 9, -10, i32::MAX, i32::MIN] {
        assert_eq!(write_signed_decimal(n), n.to_string());
    }
    assert_eq!(write_decimal(405), "405");
    assert_eq!(write_signed_decimal(-128), "-128");
}

#[test]
fn a_pipe_joins_two_lines() {
    for a in ["", " ", "ls -l", "a > b", "x |", "| |", "犬  猫"] {
        for b in ["", "wc", "> c", "|", "d | e > f"] {
            let line = format!("{a}|{b}");
            let mut apart = parse_cmd(a).unwrap();
            apart.extend(parse_cmd(b).unwrap());
            assert_eq!(parse_cmd(&line).unwrap(), apart);
        }
    }
}
