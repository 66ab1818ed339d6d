use aozora2text::char_type::CharType;
use aozora2text::document::extract_body_lines;
use aozora2text::extractor::{convert, PlainTextExtractor};
use aozora2text::gaiji::resolve;
use aozora2text::token::Token;
use aozora2text::tokenizer::Tokenizer;

fn tokens(input: &str) -> Vec<Token> {
    Tokenizer::new(input).tokenize()
}

fn text(s: &str) -> Token {
    Token::Text(s.to_string())
}

#[test]
fn plain_text_is_one_token() {
    assert_eq!(tokens("abc 普通の文。］》〕"), vec![text("abc 普通の文。］》〕")]);
    assert_eq!(convert("abc 普通の文。"), "abc 普通の文。");
}

#[test]
fn empty_input_has_no_tokens() {
    assert_eq!(tokens(""), Vec::<Token>::new());
    assert_eq!(convert(""), "");
}

#[test]
fn gloss_after_text_is_dropped() {
    assert_eq!(convert("吾輩《わがはい》は猫"), "吾輩は猫");
}

#[test]
fn gloss_may_hold_glyph_reference() {
    assert_eq!(
        tokens("丸《※［＃「丸印」、U+25CB］》"),
        vec![
            text("丸"),
            Token::Ruby {
                children: vec![Token::Gaiji {
                    description: "「丸印」、U+25CB".to_string()
                }]
            }
        ]
    );
    assert_eq!(convert("丸《※［＃「丸印」、U+25CB］》"), "丸");
}

#[test]
fn unclosed_gloss_opening_is_text() {
    assert_eq!(tokens("漢字《かん"), vec![text("漢字"), text("《"), text("かん")]);
    assert_eq!(convert("漢字《かん"), "漢字《かん");
}

#[test]
fn unclosed_gloss_leaves_later_constructs_alone() {
    assert_eq!(
        tokens("《か［＃注］"),
        vec![
            text("《"),
            text("か"),
            Token::Command {
                content: "注".to_string()
            }
        ]
    );
}

#[test]
fn prefixed_gloss_keeps_base_only() {
    assert_eq!(convert("前｜東京《とうきょう》後"), "前東京後");
}

#[test]
fn prefixed_gloss_without_close() {
    assert_eq!(
        tokens("｜東京《とう"),
        vec![Token::PrefixedRuby {
            base_children: vec![text("東京")],
            ruby_children: vec![text("とう")]
        }]
    );
}

#[test]
fn unmatched_prefix_is_text() {
    assert_eq!(tokens("終わり｜"), vec![text("終わり"), text("｜")]);
    assert_eq!(tokens("前｜後"), vec![text("前"), text("｜"), text("後")]);
    assert_eq!(convert("前｜後"), "前｜後");
}

#[test]
fn unmatched_prefix_leaves_later_gloss_alone() {
    assert_eq!(
        tokens("｜a》b"),
        vec![text("｜"), text("a》b")]
    );
}

#[test]
fn nested_command_is_dropped_whole() {
    assert_eq!(convert("本文［＃ここから罫囲み［＃「罫囲み」に傍点］］続き"), "本文続き");
}

#[test]
fn unclosed_command_opening_is_text() {
    assert_eq!(
        tokens("［＃未完［＃内］"),
        vec![
            text("［"),
            text("＃未完"),
            Token::Command {
                content: "内".to_string()
            }
        ]
    );
    assert_eq!(tokens("［＃未完"), vec![text("［"), text("＃未完")]);
}

#[test]
fn unclosed_gaiji_mark_is_text() {
    assert_eq!(
        tokens("※［＃「丸印」"),
        vec![text("※"), text("［"), text("＃「丸印」")]
    );
    assert_eq!(convert("※［＃「丸印」"), "※［＃「丸印」");
}

#[test]
fn token_clone_is_equal() {
    let original = tokens("｜東京《とうきょう》※［＃「丸印」、U+25CB］〔e'〕［＃注］");
    let copy = original.clone();
    assert_eq!(copy, original);
}

#[test]
fn accent_with_mark_is_token() {
    assert_eq!(
        tokens("〔e'tude〕"),
        vec![Token::Accent { children: vec![text("e'tude")] }]
    );
    assert_eq!(convert("〔e'tude〕です"), "e'tudeです");
}

#[test]
fn accent_without_mark_is_text() {
    assert_eq!(tokens("〔注記〕"), vec![text("〔"), text("注記〕")]);
}

#[test]
fn unclosed_accent_is_text() {
    assert_eq!(tokens("〔e'te"), vec![text("〔"), text("e'te")]);
}

#[test]
fn gaiji_without_code_point_is_dropped() {
    assert_eq!(convert("※［＃「二の字点」、1-2-22］あ"), "あ");
}

#[test]
fn gaiji_mark_before_plain_bracket_is_text() {
    assert_eq!(tokens("※［テ"), vec![text("※"), text("［"), text("テ")]);
}

#[test]
fn resolve_reads_code_point() {
    assert_eq!(resolve("「丸印」、U+25CB"), Some('○'));
    assert_eq!(resolve("U+25cb"), Some('○'));
    assert_eq!(resolve("U+1F600"), Some('\u{1F600}'));
    assert_eq!(resolve("U+0041、U+0042"), Some('A'));
    assert_eq!(resolve("U+12、U+0042"), Some('B'));
}

#[test]
fn resolve_rejects_malformed_code_point() {
    assert_eq!(resolve("「二の字点」、1-2-22"), None);
    assert_eq!(resolve("U+D800"), None);
    assert_eq!(resolve("U+110000"), None);
    assert_eq!(resolve("U+1234567"), None);
    assert_eq!(resolve("U+123"), None);
    assert_eq!(resolve("u+25CB"), None);
    assert_eq!(resolve(""), None);
}

#[test]
fn extract_of_empty_sequence_is_empty() {
    assert_eq!(PlainTextExtractor::extract(&[]), "");
}

#[test]
fn classify_is_stable_and_total() {
    let samples = ['あ', 'ア', 'Ａ', 'A', '漢', '.', '。', '\u{0}', '\u{10FFFF}', 'ぁ', 'ヿ', '〇'];
    for c in samples {
        let first = CharType::classify(c);
        assert_eq!(CharType::classify(c), first);
        let all = [
            CharType::Hiragana,
            CharType::Katakana,
            CharType::Zenkaku,
            CharType::Hankaku,
            CharType::Kanji,
            CharType::HankakuTerminate,
            CharType::Else,
        ];
        assert_eq!(all.iter().filter(|t| **t == first).count(), 1);
    }
    assert_eq!(CharType::classify('ヿ'), CharType::Else);
    assert_eq!(CharType::classify('\u{3094}'), CharType::Else);
    assert_eq!(CharType::classify('\u{A0000}'), CharType::Else);
}

#[test]
fn document_without_blank_line_has_no_body() {
    let lines = vec!["タイトル", "本文", "底本：青空文庫"];
    assert!(extract_body_lines(&lines).is_empty());
}

#[test]
fn footer_marker_only_counts_at_line_start() {
    let lines = vec!["タイトル", "", "本文 底本：", "底本", "底本：青空文庫", "後"];
    assert_eq!(extract_body_lines(&lines), vec!["本文 底本：", "底本"]);
}
