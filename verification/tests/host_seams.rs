use anzan::calculator::host_seams::{
    ans_prefixed, expects_operand, standalone_comment, trailing_comment, trailing_identifier,
    uses_programmer_notation,
};
use anzan::mode::LanguageMode;

#[test]
fn comment_only_lines_are_notes() {
    assert_eq!(standalone_comment("# a note"), Some("a note".to_string()));
    assert_eq!(standalone_comment("   #x"), Some("x".to_string()));
    assert_eq!(standalone_comment("5 + 3 # adds"), None);
    assert_eq!(standalone_comment("5 + 3"), None);
    assert_eq!(standalone_comment("\"#\" # quoted hash"), None);
}

#[test]
fn trailing_comments_need_code() {
    assert_eq!(trailing_comment("5 + 3 # adds"), Some("adds".to_string()));
    assert_eq!(trailing_comment("# only a note"), None);
    assert_eq!(trailing_comment("\"a # b\""), None);
}

#[test]
fn point_mode_waits_for_an_operand() {
    for draft in ["1 +", "sum(", "f(1,", "x =", "a <", "A:1..", "$", "2 × ", "[", "{a:"] {
        assert!(expects_operand(draft), "'{draft}' should expect an operand");
    }
    for draft in ["", "   ", "1 + 2", "sum(1)", "x", "]"] {
        assert!(!expects_operand(draft), "'{draft}' should not expect an operand");
    }
}

#[test]
fn programmer_notation_is_sniffed_at_token_boundaries() {
    assert!(uses_programmer_notation("0xff + 1"));
    assert!(uses_programmer_notation("x = 0b101"));
    assert!(uses_programmer_notation("bitAnd(6, 3)"));
    assert!(uses_programmer_notation("toBase(255, 16)"));
    assert!(!uses_programmer_notation("10x"));
    assert!(!uses_programmer_notation("a0b"));
    assert!(!uses_programmer_notation("1 + 2"));
}

#[test]
fn continuation_lines_read_ans_first() {
    assert_eq!(ans_prefixed("+5", LanguageMode::Normal), Some("ans+5".to_string()));
    assert_eq!(ans_prefixed("  *2", LanguageMode::Normal), Some("ans*2".to_string()));
    assert_eq!(ans_prefixed("×3", LanguageMode::Normal), Some("ans×3".to_string()));
    assert_eq!(ans_prefixed("%3", LanguageMode::Normal), None);
    assert_eq!(ans_prefixed("%3", LanguageMode::Programmer), Some("ans%3".to_string()));
    assert_eq!(ans_prefixed("<<1", LanguageMode::Programmer), Some("ans<<1".to_string()));
    assert_eq!(ans_prefixed("5+1", LanguageMode::Normal), None);
    assert_eq!(ans_prefixed("   ", LanguageMode::Normal), None);
}

#[test]
fn trailing_identifier_is_the_word_being_typed() {
    assert_eq!(trailing_identifier("1 + fo"), "fo");
    assert_eq!(trailing_identifier("sum(my_var"), "my_var");
    assert_eq!(trailing_identifier("2ab3"), "ab3");
    assert_eq!(trailing_identifier("x 12"), "");
    assert_eq!(trailing_identifier(""), "");
    assert_eq!(trailing_identifier("a + "), "");
}
