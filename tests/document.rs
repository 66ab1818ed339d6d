use aozora2text::document::extract_body_lines;

#[test]
fn test_basic_structure() {
    let lines = vec![
        "タイトル",
        "著者名",
        "",
        "本文1行目",
        "本文2行目",
        "底本：青空文庫",
    ];
    let body = extract_body_lines(&lines);
    assert_eq!(body, vec!["本文1行目", "本文2行目"]);
}

#[test]
fn test_no_header() {
    let lines = vec!["", "本文1行目", "本文2行目", "底本：青空文庫"];
    let body = extract_body_lines(&lines);
    assert_eq!(body, vec!["本文1行目", "本文2行目"]);
}

#[test]
fn test_no_footer() {
    let lines = vec!["タイトル", "", "本文1行目", "本文2行目"];
    let body = extract_body_lines(&lines);
    assert_eq!(body, vec!["本文1行目", "本文2行目"]);
}

#[test]
fn test_empty_body() {
    let lines = vec!["タイトル", "", "底本：青空文庫"];
    let body = extract_body_lines(&lines);
    assert!(body.is_empty());
}

#[test]
fn test_multiple_blank_lines() {
    let lines = vec!["タイトル", "", "", "本文", "底本：青空文庫"];
    let body = extract_body_lines(&lines);
    assert_eq!(body, vec!["", "本文"]);
}
