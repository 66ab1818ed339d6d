use aozora2text::extractor::PlainTextExtractor;
use aozora2text::tokenizer::Tokenizer;

fn extract(input: &str) -> String {
    let mut tokenizer = Tokenizer::new(input);
    let tokens = tokenizer.tokenize();
    PlainTextExtractor::extract(&tokens)
}

#[test]
fn extractor_test_plain_text() {
    assert_eq!(extract("こんにちは"), "こんにちは");
}

#[test]
fn test_ruby_removed() {
    assert_eq!(extract("漢字《かんじ》"), "漢字");
}

#[test]
fn extractor_test_prefixed_ruby() {
    assert_eq!(extract("｜東京《とうきょう》"), "東京");
}

#[test]
fn test_command_removed() {
    assert_eq!(extract("猫である［＃「である」に傍点］"), "猫である");
}

#[test]
fn test_gaiji_unicode() {
    assert_eq!(extract("※［＃「丸印」、U+25CB］"), "○");
}

#[test]
fn test_complex() {
    assert_eq!(
        extract("吾輩《わがはい》は猫《ねこ》である［＃「である」に傍点］"),
        "吾輩は猫である"
    );
}
