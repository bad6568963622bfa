use mdbx::schema::{db_flags, mdbx, parse, Cls, Token};

fn tok(text: &str, line: usize, column: usize) -> Token {
    Token { text: text.to_string(), line, column }
}

fn settings(c: &Cls) -> Vec<(String, String)> {
    c.map.clone()
}

#[test]
fn cls_new_takes_token_text() {
    let c = Cls::new(&tok("UserName", 3, 2));
    assert_eq!(c.cls, "UserName");
    assert!(c.map.is_empty());
}

#[test]
fn parse_splits_names_and_settings() {
    let tokens = vec![
        tok("UserCity", 2, 2),
        tok("UserName", 3, 2),
        tok("Test", 4, 2),
        tok("key", 5, 4),
        tok("Str", 5, 8),
        tok("<", 5, 11),
        tok("'", 5, 12),
        tok("static", 5, 13),
        tok(">", 5, 19),
        tok("val", 6, 4),
        tok("u64", 6, 8),
    ];
    let classes = parse(&tokens);
    assert_eq!(classes.len(), 3);
    assert_eq!(classes[0].cls, "UserCity");
    assert_eq!(classes[1].cls, "UserName");
    assert_eq!(classes[2].cls, "Test");
    assert!(settings(&classes[0]).is_empty());
    assert_eq!(
        settings(&classes[2]),
        vec![("key".to_string(), "Str<'static>".to_string()), ("val".to_string(), "u64".to_string())]
    );
}

#[test]
fn parse_of_nothing_is_empty() {
    assert!(parse(&vec![]).is_empty());
}

#[test]
fn parse_repeated_setting_starts_over() {
    let tokens = vec![
        tok("A", 1, 0),
        tok("flag", 2, 2),
        tok("DUPSORT", 2, 7),
        tok("flag", 3, 2),
        tok("CREATE", 3, 7),
    ];
    let classes = parse(&tokens);
    assert_eq!(settings(&classes[0]), vec![("flag".to_string(), "CREATE".to_string())]);
}

#[test]
fn parse_ignores_tokens_after_a_name_on_its_line() {
    let tokens = vec![tok("A", 1, 0), tok("B", 2, 0), tok("junk", 2, 2), tok("key", 3, 2), tok("u8", 3, 6)];
    let classes = parse(&tokens);
    assert_eq!(classes.len(), 2);
    assert_eq!(classes[1].cls, "B");
    assert_eq!(settings(&classes[1]), vec![("key".to_string(), "u8".to_string())]);
}

#[test]
fn mdbx_expands_default_and_dupsort() {
    let tokens = vec![
        tok("MDBX", 1, 2),
        tok("UserName", 2, 2),
        tok("Tag", 3, 2),
        tok("flag", 4, 4),
        tok("DUPSORT", 4, 9),
    ];
    let code = mdbx(&tokens, true);
    assert_eq!(
        code,
        "mdbx::Db!(MDBX,UserName,mdbx::db::kind::One,mdbx::r#type::Bin<'static>,mdbx::r#type::Bin<'static>,mdbx::flag::DB::MDBX_DB_DEFAULTS);\n\n\
mdbx::Db!(MDBX,Tag,mdbx::db::kind::Dup,mdbx::r#type::Bin<'static>,mdbx::r#type::Bin<'static>,mdbx::flag::DB::MDBX_DUPSORT);\n\n"
    );
}

#[test]
fn mdbx_of_nothing_is_empty() {
    assert_eq!(mdbx(&vec![], true), "");
    assert_eq!(mdbx(&vec![tok("MDBX", 1, 0)], true), "");
}

fn integer_tokens() -> Vec<Token> {
    vec![
        tok("MDBX", 1, 2),
        tok("Test", 2, 2),
        tok("key", 3, 4),
        tok("u64", 3, 8),
        tok("val", 4, 4),
        tok("u32", 4, 8),
        tok("flag", 5, 4),
        tok("DUPSORT", 5, 9),
        tok("|", 5, 16),
        tok("INTEGERKEY", 5, 17),
    ]
}

#[test]
fn mdbx_adds_sorts_and_dedups_flags_little_endian() {
    let code = mdbx(&integer_tokens(), true);
    assert_eq!(
        code,
        "mdbx::Db!(MDBX,Test,mdbx::db::kind::Dup,u64,u32,mdbx::flag::DB::MDBX_DUPFIXED|mdbx::flag::DB::MDBX_DUPSORT|mdbx::flag::DB::MDBX_INTEGERKEY|mdbx::flag::DB::MDBX_REVERSEDUP);\n\n"
    );
}

#[test]
fn mdbx_adds_flags_big_endian() {
    let code = mdbx(&integer_tokens(), false);
    assert_eq!(
        code,
        "mdbx::Db!(MDBX,Test,mdbx::db::kind::Dup,u64,u32,mdbx::flag::DB::MDBX_DUPFIXED|mdbx::flag::DB::MDBX_DUPSORT|mdbx::flag::DB::MDBX_INTEGERKEY);\n\n"
    );
}

#[test]
fn signed_keys_are_reversed_only_on_little_endian() {
    let tokens = vec![tok("A", 1, 0), tok("key", 2, 2), tok("i32", 2, 6)];
    let classes = parse(&tokens);
    let (little, dup) = db_flags(&classes[0], true);
    assert_eq!(little, vec!["DB_DEFAULTS".to_string(), "REVERSEKEY".to_string()]);
    assert!(!dup);
    let (big, _) = db_flags(&classes[0], false);
    assert_eq!(big, vec!["DB_DEFAULTS".to_string()]);
}

#[test]
fn written_flag_order_and_repeats_do_not_matter() {
    let a = vec![tok("A", 1, 0), tok("flag", 2, 2), tok("DUPSORT", 2, 7), tok("|", 2, 14), tok("CREATE", 2, 15)];
    let b = vec![
        tok("A", 1, 0),
        tok("flag", 2, 2),
        tok("CREATE", 2, 7),
        tok("|", 2, 13),
        tok("DUPSORT", 2, 14),
        tok("|", 2, 21),
        tok("CREATE", 2, 22),
    ];
    let fa = db_flags(&parse(&a)[0], true);
    let fb = db_flags(&parse(&b)[0], true);
    assert_eq!(fa, fb);
    assert_eq!(fa.0, vec!["CREATE".to_string(), "DUPSORT".to_string()]);
}

#[test]
fn fixed_values_without_dupsort_get_no_dupfixed() {
    let tokens = vec![tok("A", 1, 0), tok("val", 2, 2), tok("u8", 2, 6)];
    let (flags, dup) = db_flags(&parse(&tokens)[0], true);
    assert_eq!(flags, vec!["DB_DEFAULTS".to_string()]);
    assert!(!dup);
}
