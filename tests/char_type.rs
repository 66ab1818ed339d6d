use aozora2text::char_type::{CharType, CharTypeExt};

#[test]
fn test_hiragana() {
    assert_eq!(CharType::classify('あ'), CharType::Hiragana);
    assert_eq!(CharType::classify('ん'), CharType::Hiragana);
    assert_eq!(CharType::classify('ゝ'), CharType::Hiragana);
    assert_eq!(CharType::classify('ゞ'), CharType::Hiragana);
}

#[test]
fn test_katakana() {
    assert_eq!(CharType::classify('ア'), CharType::Katakana);
    assert_eq!(CharType::classify('ン'), CharType::Katakana);
    assert_eq!(CharType::classify('ー'), CharType::Katakana);
    assert_eq!(CharType::classify('ヽ'), CharType::Katakana);
    assert_eq!(CharType::classify('ヾ'), CharType::Katakana);
    assert_eq!(CharType::classify('ヴ'), CharType::Katakana);
}

#[test]
fn test_zenkaku() {
    assert_eq!(CharType::classify('Ａ'), CharType::Zenkaku);
    assert_eq!(CharType::classify('ａ'), CharType::Zenkaku);
    assert_eq!(CharType::classify('０'), CharType::Zenkaku);
    assert_eq!(CharType::classify('９'), CharType::Zenkaku);
    // ギリシャ文字
    assert_eq!(CharType::classify('Α'), CharType::Zenkaku);
    assert_eq!(CharType::classify('α'), CharType::Zenkaku);
    // キリル文字
    assert_eq!(CharType::classify('А'), CharType::Zenkaku);
    assert_eq!(CharType::classify('а'), CharType::Zenkaku);
}

#[test]
fn test_hankaku() {
    assert_eq!(CharType::classify('A'), CharType::Hankaku);
    assert_eq!(CharType::classify('z'), CharType::Hankaku);
    assert_eq!(CharType::classify('0'), CharType::Hankaku);
    assert_eq!(CharType::classify('9'), CharType::Hankaku);
    assert_eq!(CharType::classify('#'), CharType::Hankaku);
    assert_eq!(CharType::classify('-'), CharType::Hankaku);
    assert_eq!(CharType::classify('&'), CharType::Hankaku);
    assert_eq!(CharType::classify('\''), CharType::Hankaku);
    assert_eq!(CharType::classify(','), CharType::Hankaku);
}

#[test]
fn test_kanji() {
    assert_eq!(CharType::classify('漢'), CharType::Kanji);
    assert_eq!(CharType::classify('字'), CharType::Kanji);
    assert_eq!(CharType::classify('々'), CharType::Kanji);
    assert_eq!(CharType::classify('※'), CharType::Kanji);
    assert_eq!(CharType::classify('仝'), CharType::Kanji);
    assert_eq!(CharType::classify('〆'), CharType::Kanji);
    assert_eq!(CharType::classify('〇'), CharType::Kanji);
    assert_eq!(CharType::classify('ヶ'), CharType::Kanji);
}

#[test]
fn test_hankaku_terminate() {
    assert_eq!(CharType::classify('.'), CharType::HankakuTerminate);
    assert_eq!(CharType::classify(';'), CharType::HankakuTerminate);
    assert_eq!(CharType::classify('"'), CharType::HankakuTerminate);
    assert_eq!(CharType::classify('?'), CharType::HankakuTerminate);
    assert_eq!(CharType::classify('!'), CharType::HankakuTerminate);
    assert_eq!(CharType::classify(')'), CharType::HankakuTerminate);
}

#[test]
fn test_else() {
    assert_eq!(CharType::classify('。'), CharType::Else);
    assert_eq!(CharType::classify('、'), CharType::Else);
    assert_eq!(CharType::classify('「'), CharType::Else);
    assert_eq!(CharType::classify('」'), CharType::Else);
    assert_eq!(CharType::classify('（'), CharType::Else);
    assert_eq!(CharType::classify('）'), CharType::Else);
}

#[test]
fn test_can_be_ruby_base() {
    assert!(CharType::Hiragana.can_be_ruby_base());
    assert!(CharType::Katakana.can_be_ruby_base());
    assert!(CharType::Zenkaku.can_be_ruby_base());
    assert!(CharType::Hankaku.can_be_ruby_base());
    assert!(CharType::Kanji.can_be_ruby_base());
    assert!(CharType::HankakuTerminate.can_be_ruby_base());
    assert!(!CharType::Else.can_be_ruby_base());
}

#[test]
fn test_char_type_ext() {
    assert_eq!('あ'.char_type(), CharType::Hiragana);
    assert_eq!('ア'.char_type(), CharType::Katakana);
    assert_eq!('漢'.char_type(), CharType::Kanji);
}

#[test]
fn test_edge_case_ke() {
    // ヶは漢字として扱う（青空文庫の指針）
    assert_eq!(CharType::classify('ヶ'), CharType::Kanji);
}

#[test]
fn test_edge_case_long_vowel() {
    // 長音記号はカタカナとして扱う
    assert_eq!(CharType::classify('ー'), CharType::Katakana);
}


#[test]
fn test_spec_basic() {
    // 基本判定
    assert_eq!(CharType::classify('あ'), CharType::Hiragana);
    assert_eq!(CharType::classify('ア'), CharType::Katakana);
    assert_eq!(CharType::classify('漢'), CharType::Kanji);
    assert_eq!(CharType::classify('Ａ'), CharType::Zenkaku);
    assert_eq!(CharType::classify('A'), CharType::Hankaku);
    assert_eq!(CharType::classify('.'), CharType::HankakuTerminate);
    assert_eq!(CharType::classify('。'), CharType::Else);
}

#[test]
fn test_spec_special_chars() {
    // 特殊文字
    assert_eq!(CharType::classify('々'), CharType::Kanji); // 踊り字
    assert_eq!(CharType::classify('ー'), CharType::Katakana); // 長音記号
    assert_eq!(CharType::classify('ヶ'), CharType::Kanji); // ヶは漢字扱い
    assert_eq!(CharType::classify('ゝ'), CharType::Hiragana); // ひらがな踊り字
    assert_eq!(CharType::classify('ヽ'), CharType::Katakana); // カタカナ踊り字
    assert_eq!(CharType::classify('ヴ'), CharType::Katakana); // ヴ
    assert_eq!(CharType::classify('※'), CharType::Kanji); // 米印
    assert_eq!(CharType::classify('仝'), CharType::Kanji); // 同上記号
    assert_eq!(CharType::classify('〆'), CharType::Kanji); // 締め記号
    assert_eq!(CharType::classify('〇'), CharType::Kanji); // ゼロ
}

#[test]
fn test_spec_greek_cyrillic() {
    // ギリシャ・キリル文字
    assert_eq!(CharType::classify('Α'), CharType::Zenkaku); // ギリシャ大文字アルファ U+0391
    assert_eq!(CharType::classify('α'), CharType::Zenkaku); // ギリシャ小文字アルファ U+03B1
    assert_eq!(CharType::classify('Ω'), CharType::Zenkaku); // ギリシャ大文字オメガ U+03A9
    assert_eq!(CharType::classify('ω'), CharType::Zenkaku); // ギリシャ小文字オメガ U+03C9
    assert_eq!(CharType::classify('А'), CharType::Zenkaku); // キリル大文字А U+0410
    assert_eq!(CharType::classify('а'), CharType::Zenkaku); // キリル小文字а U+0430
    assert_eq!(CharType::classify('Я'), CharType::Zenkaku); // キリル大文字Я U+042F
    assert_eq!(CharType::classify('я'), CharType::Zenkaku); // キリル小文字я U+044F
}

#[test]
fn test_spec_hankaku_symbols() {
    // 半角記号
    assert_eq!(CharType::classify('#'), CharType::Hankaku);
    assert_eq!(CharType::classify('-'), CharType::Hankaku);
    assert_eq!(CharType::classify('&'), CharType::Hankaku);
    assert_eq!(CharType::classify('\''), CharType::Hankaku);
    assert_eq!(CharType::classify(','), CharType::Hankaku);
    // 半角終端記号
    assert_eq!(CharType::classify('?'), CharType::HankakuTerminate);
    assert_eq!(CharType::classify('!'), CharType::HankakuTerminate);
    assert_eq!(CharType::classify(';'), CharType::HankakuTerminate);
    assert_eq!(CharType::classify('"'), CharType::HankakuTerminate);
    assert_eq!(CharType::classify(')'), CharType::HankakuTerminate);
}

#[test]
fn test_spec_zenkaku_symbols() {
    // 全角記号: −＆'，．
    assert_eq!(CharType::classify('−'), CharType::Zenkaku); // U+2212 MINUS SIGN
    assert_eq!(CharType::classify('＆'), CharType::Zenkaku); // U+FF06 FULLWIDTH AMPERSAND
    assert_eq!(CharType::classify('\u{2019}'), CharType::Zenkaku); // U+2019 RIGHT SINGLE QUOTATION MARK
    assert_eq!(CharType::classify('，'), CharType::Zenkaku); // U+FF0C FULLWIDTH COMMA
    assert_eq!(CharType::classify('．'), CharType::Zenkaku); // U+FF0E FULLWIDTH FULL STOP
}
