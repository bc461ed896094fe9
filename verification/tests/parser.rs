use hrm::op::{Addr, Instr};
use hrm::parser::{
    addr, bump_down, bump_up, comment, copy_from, copy_to, doc_comment, filler, hrm_sep, inoutbox,
    jump, jumpn, jumpz, label, number, parse, parse_bytes, parse_tokens, skip_line, statement,
    to_usize, token, tokens, Token,
};

fn bytes(text: &str) -> &[u8] {
    text.as_bytes()
}

#[test]
fn test_tokens() {
    let src = r#"
        a:
            INBOX
            OUTBOX
            ADD 1
            SUB [2]
            COPYTO 3
            COPYFROM [4]
            JUMP a
        "#;

    assert_eq!(
        tokens(bytes(src), 0),
        (
            vec![
                Token::Label(bytes("a")),
                Token::Inbox,
                Token::Outbox,
                Token::Add(Addr::Direct(1)),
                Token::Sub(Addr::Ref(2)),
                Token::CopyTo(Addr::Direct(3)),
                Token::CopyFrom(Addr::Ref(4)),
                Token::Jump(bytes("a")),
            ],
            src.len()
        )
    );
}

#[test]
fn test_addr() {
    assert_eq!(addr(bytes("1"), 0), Some((Addr::Direct(1), 1)));
    assert_eq!(addr(bytes("[2]"), 0), Some((Addr::Ref(2), 3)));
}

#[test]
fn test_label() {
    assert_eq!(label(bytes("a:"), 0), Some((Token::Label(bytes("a")), 2)));
    assert_eq!(label(bytes("b1:"), 0), Some((Token::Label(bytes("b1")), 3)));
}

#[test]
fn test_inoutbox() {
    assert_eq!(inoutbox(bytes("INBOX"), 0), Some((Token::Inbox, 5)));
    assert_eq!(inoutbox(bytes("OUTBOX"), 0), Some((Token::Outbox, 6)));
}

#[test]
fn test_jump() {
    assert_eq!(jump(bytes("JUMP a"), 0), Some((Token::Jump(bytes("a")), 6)));
    assert_eq!(
        jumpn(bytes("JUMPN b1"), 0),
        Some((Token::JumpNeg(bytes("b1")), 8))
    );
    assert_eq!(
        jumpz(bytes("JUMPZ c2"), 0),
        Some((Token::JumpZero(bytes("c2")), 8))
    );
}

#[test]
fn test_add_sub() {
    assert_eq!(
        hrm::parser::add(bytes("ADD 1"), 0),
        Some((Token::Add(Addr::Direct(1)), 5))
    );
    assert_eq!(
        hrm::parser::add(bytes("ADD [2]"), 0),
        Some((Token::Add(Addr::Ref(2)), 7))
    );

    assert_eq!(
        hrm::parser::sub(bytes("SUB 1"), 0),
        Some((Token::Sub(Addr::Direct(1)), 5))
    );
    assert_eq!(
        hrm::parser::sub(bytes("SUB [2]"), 0),
        Some((Token::Sub(Addr::Ref(2)), 7))
    );
}

#[test]
fn test_bump() {
    assert_eq!(
        bump_up(bytes("BUMPUP 1"), 0),
        Some((Token::BumpUp(Addr::Direct(1)), 8))
    );
    assert_eq!(
        bump_up(bytes("BUMPUP [2]"), 0),
        Some((Token::BumpUp(Addr::Ref(2)), 10))
    );

    assert_eq!(
        bump_down(bytes("BUMPDN 1"), 0),
        Some((Token::BumpDown(Addr::Direct(1)), 8))
    );
    assert_eq!(
        bump_down(bytes("BUMPDN [2]"), 0),
        Some((Token::BumpDown(Addr::Ref(2)), 10))
    );
}

#[test]
fn test_copy() {
    assert_eq!(
        copy_to(bytes("COPYTO 1"), 0),
        Some((Token::CopyTo(Addr::Direct(1)), 8))
    );
    assert_eq!(
        copy_to(bytes("COPYTO [2]"), 0),
        Some((Token::CopyTo(Addr::Ref(2)), 10))
    );

    assert_eq!(
        copy_from(bytes("COPYFROM 1"), 0),
        Some((Token::CopyFrom(Addr::Direct(1)), 10))
    );
    assert_eq!(
        copy_from(bytes("COPYFROM [2]"), 0),
        Some((Token::CopyFrom(Addr::Ref(2)), 12))
    );
}

#[test]
fn number_takes_the_whole_run_of_digits() {
    assert_eq!(number(bytes("12x"), 0), Some((12, 2)));
    assert_eq!(number(bytes("x12"), 1), Some((12, 3)));
    assert_eq!(number(bytes("007"), 0), Some((7, 3)));
    assert_eq!(number(bytes("x"), 0), None);
    assert_eq!(number(bytes(""), 0), None);
    assert_eq!(number(bytes("1"), 5), None);
}

#[test]
fn to_usize_reads_decimal() {
    assert_eq!(to_usize(bytes("0")), Some(0));
    assert_eq!(to_usize(bytes("42")), Some(42));
    assert_eq!(to_usize(bytes("18446744073709551615")), Some(usize::MAX));
    assert_eq!(to_usize(bytes("")), None);
    assert_eq!(to_usize(bytes("4a")), None);
    assert_eq!(to_usize(bytes("+4")), None);
}

#[test]
fn to_usize_rejects_what_does_not_fit() {
    assert_eq!(to_usize(bytes("18446744073709551616")), None);
    assert_eq!(to_usize(bytes("99999999999999999999999999")), None);
    assert_eq!(addr(bytes("99999999999999999999999999"), 0), None);
    assert_eq!(addr(bytes("[99999999999999999999999999]"), 0), None);
}

#[test]
fn addr_wants_its_closing_bracket() {
    assert_eq!(addr(bytes("[2"), 0), None);
    assert_eq!(addr(bytes("[ 2]"), 0), None);
    assert_eq!(addr(bytes("[2 ]"), 0), None);
    assert_eq!(addr(bytes("[]"), 0), None);
    assert_eq!(addr(bytes("]"), 0), None);
    assert_eq!(addr(bytes("[12]3"), 0), Some((Addr::Ref(12), 4)));
}

#[test]
fn label_may_have_an_empty_name() {
    assert_eq!(label(bytes(":"), 0), Some((Token::Label(bytes("")), 1)));
    assert_eq!(label(bytes("a b:"), 0), None);
    assert_eq!(label(bytes("a"), 0), None);
    assert_eq!(label(bytes("a_b:"), 0), None);
}

#[test]
fn label_comes_before_any_keyword() {
    assert_eq!(
        statement(bytes("INBOX:"), 0),
        Some((Token::Label(bytes("INBOX")), 6))
    );
    assert_eq!(statement(bytes("INBOX"), 0), Some((Token::Inbox, 5)));
}

#[test]
fn keywords_are_case_sensitive() {
    assert_eq!(statement(bytes("inbox"), 0), None);
    assert_eq!(statement(bytes("Add 1"), 0), None);
    assert_eq!(statement(bytes("jump a"), 0), None);
}

#[test]
fn keyword_wants_a_space_or_tab_behind_it() {
    assert_eq!(hrm::parser::add(bytes("ADD1"), 0), None);
    assert_eq!(hrm::parser::add(bytes("ADD\n1"), 0), None);
    assert_eq!(
        hrm::parser::add(bytes("ADD \t 1"), 0),
        Some((Token::Add(Addr::Direct(1)), 7))
    );
    assert_eq!(jump(bytes("JUMP"), 0), None);
    assert_eq!(jump(bytes("JUMP "), 0), Some((Token::Jump(bytes("")), 5)));
    assert_eq!(jump(bytes("JUMPN x"), 0), None);
}

#[test]
fn statement_tries_each_form() {
    assert_eq!(statement(bytes("OUTBOX"), 0), Some((Token::Outbox, 6)));
    assert_eq!(
        statement(bytes("JUMP a"), 0),
        Some((Token::Jump(bytes("a")), 6))
    );
    assert_eq!(
        statement(bytes("JUMPN a"), 0),
        Some((Token::JumpNeg(bytes("a")), 7))
    );
    assert_eq!(
        statement(bytes("JUMPZ a"), 0),
        Some((Token::JumpZero(bytes("a")), 7))
    );
    assert_eq!(
        statement(bytes("COPYTO 1"), 0),
        Some((Token::CopyTo(Addr::Direct(1)), 8))
    );
    assert_eq!(
        statement(bytes("COPYFROM 1"), 0),
        Some((Token::CopyFrom(Addr::Direct(1)), 10))
    );
    assert_eq!(
        statement(bytes("ADD 1"), 0),
        Some((Token::Add(Addr::Direct(1)), 5))
    );
    assert_eq!(
        statement(bytes("SUB 1"), 0),
        Some((Token::Sub(Addr::Direct(1)), 5))
    );
    assert_eq!(
        statement(bytes("BUMPUP 1"), 0),
        Some((Token::BumpUp(Addr::Direct(1)), 8))
    );
    assert_eq!(
        statement(bytes("BUMPDN 1"), 0),
        Some((Token::BumpDown(Addr::Direct(1)), 8))
    );
    assert_eq!(statement(bytes("NOP"), 0), None);
    assert_eq!(statement(bytes(""), 0), None);
}

#[test]
fn skip_line_goes_behind_the_line_feed() {
    assert_eq!(skip_line(bytes("ab\ncd\n"), 0), 3);
    assert_eq!(skip_line(bytes("ab\ncd\n"), 2), 3);
    assert_eq!(skip_line(bytes("ab\ncd\n"), 3), 6);
    assert_eq!(skip_line(bytes("ab\ncd"), 3), 5);
    assert_eq!(skip_line(bytes("ab"), 2), 2);
    assert_eq!(skip_line(bytes("ab"), 7), 7);
}

#[test]
fn doc_comment_runs_to_the_end_of_the_line() {
    assert_eq!(doc_comment(bytes("-- hello\nINBOX"), 0), Some(9));
    assert_eq!(doc_comment(bytes("--\n"), 0), Some(3));
    assert_eq!(doc_comment(bytes("-- no end"), 0), Some(9));
    assert_eq!(doc_comment(bytes("--"), 0), Some(2));
    assert_eq!(doc_comment(bytes("- x\n"), 0), None);
    assert_eq!(doc_comment(bytes("x--\n"), 0), None);
    assert_eq!(doc_comment(bytes("--\n"), 9), None);
}

#[test]
fn hrm_sep_takes_all_that_says_nothing() {
    assert_eq!(hrm_sep(bytes("  \n\t\r\nINBOX"), 0), 6);
    assert_eq!(hrm_sep(bytes("-- a\n\n  -- b\n INBOX"), 0), 14);
    assert_eq!(hrm_sep(bytes("COMMENT 1\n-- a\nCOMMENT 2\n \nINBOX"), 0), 27);
    assert_eq!(hrm_sep(bytes("INBOX"), 0), 0);
    assert_eq!(hrm_sep(bytes("-- no end"), 0), 9);
    assert_eq!(hrm_sep(bytes(""), 0), 0);
    assert_eq!(hrm_sep(bytes("  "), 7), 7);
}

#[test]
fn filler_takes_one_piece() {
    assert_eq!(filler(bytes(" \n -- a\n"), 0), Some(3));
    assert_eq!(filler(bytes(" \n -- a\n"), 3), Some(8));
    assert_eq!(filler(bytes("COMMENT 4\nx"), 0), Some(10));
    assert_eq!(filler(bytes("INBOX"), 0), None);
    assert_eq!(filler(bytes(""), 0), None);
}

#[test]
fn comment_takes_a_comment_line() {
    assert_eq!(comment(bytes("COMMENT  0\nINBOX"), 0), Some(11));
    assert_eq!(comment(bytes("COMMENT 1 what\nCOMMENT\t2\nINBOX"), 0), Some(15));
    assert_eq!(comment(bytes("COMMENT 1 what\nCOMMENT\t2\nINBOX"), 15), Some(25));
    assert_eq!(comment(bytes("COMMENT x\nINBOX"), 0), Some(10));
    assert_eq!(comment(bytes("COMMENT 1"), 0), Some(9));
    assert_eq!(comment(bytes("COMMENT\nINBOX"), 0), None);
    assert_eq!(comment(bytes("COMMENT"), 0), None);
    assert_eq!(comment(bytes(" COMMENT 1\n"), 0), None);
    assert_eq!(comment(bytes("INBOX"), 0), None);
}

#[test]
fn token_skips_what_says_nothing_before_it() {
    assert_eq!(token(bytes("  INBOX \n OUTBOX"), 0), Some((Token::Inbox, 7)));
    assert_eq!(token(bytes("  INBOX \n OUTBOX"), 7), Some((Token::Outbox, 16)));
    assert_eq!(token(bytes("INBOXOUTBOX"), 0), Some((Token::Inbox, 5)));
    assert_eq!(
        token(bytes("COMMENT 3\n  ADD 1\n"), 0),
        Some((Token::Add(Addr::Direct(1)), 17))
    );
    assert_eq!(
        token(bytes("-- a\nCOMMENT 3\n-- b\nSUB [1]"), 0),
        Some((Token::Sub(Addr::Ref(1)), 27))
    );
    assert_eq!(token(bytes("  \n "), 0), None);
}

#[test]
fn tokens_stop_where_no_statement_stands() {
    assert_eq!(
        tokens(bytes("INBOX\nFOO\nOUTBOX\n"), 0),
        (vec![Token::Inbox], 6)
    );
    assert_eq!(
        tokens(bytes("INBOX\n-- a note\nOUTBOX\n"), 0),
        (vec![Token::Inbox, Token::Outbox], 23)
    );
    assert_eq!(tokens(bytes("INBOX\n  "), 0), (vec![Token::Inbox], 8));
    assert_eq!(tokens(bytes(""), 0), (vec![], 0));
    assert_eq!(tokens(bytes("INBOX"), 9), (vec![], 9));
}

#[test]
fn parse_tokens_skips_the_header() {
    assert_eq!(
        parse_tokens(bytes("-- HUMAN RESOURCE MACHINE PROGRAM --\n\n    INBOX\n")),
        vec![Token::Inbox]
    );
    assert_eq!(parse_tokens(bytes("-- x\n")), vec![]);
}

#[test]
fn parse_tokens_reads_all_or_nothing() {
    assert_eq!(
        parse_tokens(bytes("INBOX\nOUTBOX\n")),
        vec![Token::Inbox, Token::Outbox]
    );
    assert_eq!(parse_tokens(bytes("INBOX\nOUTBOX\n?")), vec![]);
}

#[test]
fn parse_reads_every_instruction() {
    let text = "-- all of them --\n\
        a:\n\
        INBOX\n\
        OUTBOX\n\
        COPYFROM 1\n\
        COPYTO [2]\n\
        ADD 3\n\
        SUB [4]\n\
        BUMPUP 5\n\
        BUMPDN [6]\n\
        JUMP a\n\
        JUMPN b\n\
        JUMPZ b\n\
        b:\n";
    assert_eq!(
        parse(text),
        vec![
            Instr::Inbox,
            Instr::Outbox,
            Instr::CopyFrom(Addr::Direct(1)),
            Instr::CopyTo(Addr::Ref(2)),
            Instr::Add(Addr::Direct(3)),
            Instr::Sub(Addr::Ref(4)),
            Instr::BumpUp(Addr::Direct(5)),
            Instr::BumpDown(Addr::Ref(6)),
            Instr::Jump(0),
            Instr::JumpNeg(11),
            Instr::JumpZero(11),
        ]
    );
}

#[test]
fn label_resolution() {
    assert_eq!(parse("a:\nINBOX\nJUMP a\n"), vec![Instr::Inbox, Instr::Jump(0)]);
    assert_eq!(parse("a: INBOX JUMP a"), vec![Instr::Inbox, Instr::Jump(0)]);
}

#[test]
fn labels_take_no_place() {
    assert_eq!(
        parse("a:\nb:\nINBOX\nc:\nOUTBOX\nJUMP a\nJUMP b\nJUMP c\n"),
        vec![
            Instr::Inbox,
            Instr::Outbox,
            Instr::Jump(0),
            Instr::Jump(0),
            Instr::Jump(1),
        ]
    );
}

#[test]
fn a_jump_may_name_a_later_label() {
    assert_eq!(
        parse("JUMPZ end\nINBOX\nend:\n"),
        vec![Instr::JumpZero(2), Instr::Inbox]
    );
}

#[test]
fn the_later_definition_of_a_label_counts() {
    assert_eq!(
        parse("a:\nINBOX\na:\nOUTBOX\nJUMP a\n"),
        vec![Instr::Inbox, Instr::Outbox, Instr::Jump(1)]
    );
}

#[test]
fn unresolved_jump_is_dropped() {
    assert_eq!(parse_tokens(bytes("INBOX\nJUMP missing\nOUTBOX\n")).len(), 3);
    assert_eq!(
        parse("INBOX\nJUMP missing\nOUTBOX\n"),
        vec![Instr::Inbox, Instr::Outbox]
    );
    assert_eq!(parse("JUMPN missing\n"), vec![]);
    assert_eq!(parse("JUMPZ missing\n"), vec![]);
}

#[test]
fn a_dropped_jump_still_counts_for_the_labels_behind_it() {
    assert_eq!(
        parse("JUMP missing\na:\nINBOX\nJUMP a\n"),
        vec![Instr::Inbox, Instr::Jump(1)]
    );
}

#[test]
fn unparsable_text_is_an_empty_program() {
    assert_eq!(parse("this is no program"), vec![]);
    assert_eq!(parse(""), vec![]);
    assert_eq!(parse("   \n"), vec![]);
    assert_eq!(parse_bytes(&[0xff, 0xfe]), vec![]);
}

#[test]
fn a_text_with_an_unreadable_place_is_an_empty_program() {
    assert_eq!(parse("INBOX\n???\nOUTBOX\n"), vec![]);
    assert_eq!(parse("INBOX\nADD x\nOUTBOX\n"), vec![]);
    assert_eq!(parse("INBOX\nOUTBOX\nADD"), vec![]);
    assert_eq!(parse("INBOX\nADD 99999999999999999999999999\n"), vec![]);
    assert_eq!(parse("COMMENT\nINBOX\n"), vec![]);
}

#[test]
fn dash_lines_stand_between_statements() {
    assert_eq!(
        parse("INBOX\n-- note\nOUTBOX\n"),
        vec![Instr::Inbox, Instr::Outbox]
    );
    assert_eq!(
        parse("-- head\nINBOX -- takes a value\n-- and\n\nCOMMENT 1\n-- puts it out\nOUTBOX\n-- end"),
        vec![Instr::Inbox, Instr::Outbox]
    );
}

#[test]
fn a_comment_may_end_the_text_without_a_line_feed() {
    assert_eq!(parse("INBOX\n-- end"), vec![Instr::Inbox]);
    assert_eq!(parse("INBOX\nCOMMENT 7"), vec![Instr::Inbox]);
}

#[test]
fn a_comment_takes_the_rest_of_its_line() {
    assert_eq!(parse("INBOX -- OUTBOX\n"), vec![Instr::Inbox]);
    assert_eq!(parse("INBOX\nCOMMENT 1 OUTBOX\n"), vec![Instr::Inbox]);
}

#[test]
fn comment_lines_stand_between_statements() {
    assert_eq!(
        parse("INBOX\nCOMMENT  0\nOUTBOX\nCOMMENT 1 and text\n"),
        vec![Instr::Inbox, Instr::Outbox]
    );
}

#[test]
fn letters_outside_ascii_end_a_name() {
    assert_eq!(
        jump("JUMP a\u{161}".as_bytes(), 0),
        Some((Token::Jump(bytes("a")), 6))
    );
    assert_eq!(label("\u{161}:".as_bytes(), 0), None);
}
