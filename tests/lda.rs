use qsearch::lda::LDA;

#[test]
fn test_handle_token_filter() {
    // Setup LDA
    let topics: Vec<String> = vec![];
    let filter: Vec<String> = vec![String::from("the"), String::from("a")];
    let mut lda = LDA::new(topics, filter);

    // Handle the token
    let path_buf = String::from("./");
    let stop_word = String::from("the");
    lda.handle_token(&path_buf, stop_word);

    // Ensure that it is not part of the index
    assert_eq!(lda.has_document(&path_buf), false);
}

#[test]
fn test_handle_token_filter_with_doc() {
    let topics: Vec<String> = vec![];
    let filter: Vec<String> = vec![String::from("the"), String::from("a")];
    let mut lda = LDA::new(topics, filter);

    // Handle the token - this should add the document
    let path_buf = String::from("./");
    let non_stop_word = String::from("not");
    lda.handle_token(&path_buf, non_stop_word);

    // Handle next token - this should not be added to existing document
    let stop_word = String::from("the");
    lda.handle_token(&path_buf, stop_word.clone());

    assert_eq!(lda.has_document(&path_buf), true);
    let freq = lda.get_count(&path_buf, &stop_word.clone());
    assert_eq!(freq.is_none(), true);
}

#[test]
fn lda_counts_stems() {
    let mut lda = LDA::new(vec![], vec![String::from("the")]);
    let path = String::from("doc");
    lda.handle_token(&path, String::from("running"));
    lda.handle_token(&path, String::from("runs"));
    assert_eq!(lda.get_count(&path, &String::from("run")), Some(2));
    assert_eq!(lda.get_count(&path, &String::from("running")), None);
}

#[test]
fn lda_stem_word() {
    let lda = LDA::new(vec![], vec![]);
    assert_eq!(lda.stem_word(&String::from("cats")), "cat");
}

#[test]
fn lda_remove_stop_words() {
    let lda = LDA::new(vec![], vec![String::from("a")]);
    let a = String::from("a");
    let b = String::from("b");
    assert_eq!(lda.remove_stop_words(&a), None);
    assert_eq!(lda.remove_stop_words(&b), Some(&b));
}
