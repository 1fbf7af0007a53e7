use claude_pilot::scorer::{tokenize, words_of_lowercased, HistoricalTask};

#[test]
fn test_tokenize() {
    let tokens = tokenize("Fix the authentication bug in login.rs");
    assert!(tokens.contains(&"authentication".to_string()));
    assert!(tokens.contains(&"bug".to_string()));
    assert!(tokens.contains(&"login".to_string()));
    assert!(tokens.contains(&"the".to_string()));
    assert!(tokens.contains(&"fix".to_string()));
}

#[test]
fn test_historical_task_creation() {
    let task = HistoricalTask::new("Fix authentication bug", vec!["auth.rs".to_string()], true);

    assert!(task.success);
    assert!(!task.tokens.is_empty());
    assert!(task.tokens.contains(&"authentication".to_string()));
}

#[test]
fn tokenize_lowercases_and_drops_short_words() {
    assert_eq!(tokenize("Fix the Auth_Module in a.rs"), vec!["fix", "the", "auth_module"]);
    assert_eq!(tokenize(""), Vec::<String>::new());
    assert_eq!(tokenize("ÉCOLE über"), vec!["école", "über"]);
}

#[test]
fn words_split_on_non_word_characters() {
    assert_eq!(words_of_lowercased("one,two;;three--four_x"), vec!["one", "two", "three", "four_x"]);
    assert_eq!(words_of_lowercased("ab cd"), Vec::<String>::new());
}
