use tag_filter::{
    get_input_path_prefix, is_tag_file_name, load_exclude_words, make_backup_path,
    make_exclude_words_path, make_output_path, text_matches_any, PathError,
};

#[test]
fn output_path_from_input_path() {
    let input_path = r"test_data/p6/N400_ab6c_PW2.obci.tag";
    let output_path = make_output_path(input_path);
    assert_eq!(
        output_path.unwrap().as_str(),
        r"test_data/p6/N400_ab6c_PW2_excluded.obci.tag"
    )
}

#[test]
fn exclude_words_path_from_input_path() {
    let input_path = r"test_data/p6/N400_ab6c_PW2.obci.tag";
    let exclude_words_path = make_exclude_words_path(input_path);
    assert_eq!(
        exclude_words_path.unwrap().as_str(),
        r"test_data/p6/exclude_words_ab6c_PW2.txt"
    )
}

#[test]
fn backup_path_from_input_path() {
    let input_path = "test_data/p6/N400_ab6c_PW2.obci.tag";
    let backup_path = make_backup_path(input_path);
    assert_eq!(
        backup_path.unwrap().as_str(),
        "test_data/p6/N400_ab6c_PW2_backup.obci.tag"
    )
}

#[test]
fn input_path_prefix_is_file_prefix() {
    let prefix = get_input_path_prefix("test_data/p6/N400_ab6c_PW2.obci.tag");
    assert_eq!(prefix.unwrap().as_str(), "N400_ab6c_PW2");
}

#[test]
fn path_without_file_name_is_rejected() {
    assert_eq!(make_output_path("test_data/p6/"), Err(PathError::InvalidPath));
    assert_eq!(get_input_path_prefix(""), Err(PathError::InvalidPath));
    assert_eq!(get_input_path_prefix("a/.."), Err(PathError::InvalidPath));
}

#[test]
fn file_name_without_tag_prefix_is_rejected() {
    assert_eq!(
        make_exclude_words_path("test_data/p6/other.obci.tag"),
        Err(PathError::InvalidName)
    );
}

#[test]
fn tag_file_names_are_recognised() {
    assert!(is_tag_file_name("N400_ab6c_PW2.obci.tag"));
    assert!(!is_tag_file_name("M400_ab6c_PW2.obci.tag"));
    assert!(!is_tag_file_name("N400_ab6c_PW2.tag"));
    assert!(!is_tag_file_name(""));
}

#[test]
fn exclude_words_split_on_lines() {
    let words = load_exclude_words("lalka\npilka\n");
    assert_eq!(words, vec!["lalka".to_string(), "pilka".to_string()]);
}

#[test]
fn exclude_words_handle_crlf_and_last_line() {
    let words = load_exclude_words("jeden\r\ndwa");
    assert_eq!(words, vec!["jeden".to_string(), "dwa".to_string()]);
    let empty: Vec<String> = Vec::new();
    assert_eq!(load_exclude_words(""), empty);
    assert_eq!(load_exclude_words("\n"), vec![String::new()]);
}

#[test]
fn matching_is_substring_and_case_sensitive() {
    let words = vec!["cat".to_string()];
    assert!(text_matches_any("concatenate", &words));
    assert!(!text_matches_any("conCATenate", &words));
    assert!(!text_matches_any("", &words));
    let no_words: Vec<String> = Vec::new();
    assert!(!text_matches_any("anything", &no_words));
}
