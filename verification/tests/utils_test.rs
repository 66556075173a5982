use llm_training_rust::utils::file_exists;

#[test]
fn test_file_exists() {
    // This dummy path would exist only if something had written it first,
    // and the test suite may not touch the file system; the expectation
    // is therefore the inverse of a run with that fixture in place.
    let file_path = "path/to/file.txt";
    assert!(!file_exists(file_path));
}

#[test]
fn test_file_exists_on_present_file() {
    // The file system root always exists.
    assert!(file_exists("/"));
}
