use wych_book::config::{config_file, csv_file, ConfigError, WychConfig};

fn names(config: &WychConfig) -> Vec<String> {
    config.all_lists().clone()
}

#[test]
fn test_create_new_list() {
    let list_name = String::from("books");
    let mut config = WychConfig::new(list_name.clone(), vec![list_name.clone()]);

    // the list's file has just been made
    let new_list = "new_list";
    config.add_new_empty_list(new_list);
    assert!(config.all_lists().contains(&new_list.to_string()));
    assert_eq!(config.get_default(), "books");
    assert_eq!(config.all_lists().len(), 2);
}

#[test]
fn test_validate_config() {
    let list_name = String::from("books");
    let mut config = WychConfig::new(String::new(), vec![String::from("does_not_exist")]);

    config.add_new_empty_list(&list_name);
    assert_eq!(config.get_default(), "books");
    // only "books" has a file
    config.validate_config(&vec![false, true], true);
    assert!(config.all_lists().len() == 1);
    assert_eq!(config.get_default(), list_name);
}

#[test]
fn validate_config_replaces_missing_default() {
    let mut config = WychConfig::new(
        "gone".into(),
        vec!["gone".into(), "a".into(), "b".into()],
    );
    config.validate_config(&vec![false, true, true], false);
    assert_eq!(names(&config), vec!["a".to_string(), "b".to_string()]);
    assert_eq!(config.get_default(), "a");

    let mut config = WychConfig::new("gone".into(), vec!["gone".into()]);
    config.validate_config(&vec![false], false);
    assert!(config.all_lists().is_empty());
    assert_eq!(config.get_default(), "");
}

#[test]
fn test_copy_csv_list() {
    let mut config = WychConfig::new(String::new(), Vec::new());

    let name = "books";
    config.add_new_empty_list(name);
    assert_eq!(name, config.get_default());

    let name2 = "books2";
    let result = config.copy_csv_list(name2, true, false, false);
    assert_eq!(result, Ok(true));
    assert_eq!(names(&config), vec![name.to_string(), name2.to_string()]);

    // from list doesn't exist
    let result = config.copy_csv_list(name2, false, true, false);
    assert_eq!(result, Err(ConfigError::CopyMissing));

    // already exists and overwrite is false
    let result = config.copy_csv_list(name2, true, true, false);
    assert_eq!(result, Ok(false));
    assert_eq!(config.all_lists().len(), 2);

    // already exists and overwrite is true
    let result = config.copy_csv_list(name2, true, true, true);
    assert_eq!(result, Ok(true));
    assert_eq!(config.all_lists().len(), 2);
}

#[test]
fn test_delete_list() {
    let mut config = WychConfig::new(String::new(), Vec::new());
    let name = "books";
    config.add_new_empty_list(name);
    let name2 = "books2";
    config.add_new_empty_list(name2);

    // List does not exist
    assert_eq!(config.delete_list("blah"), Err(ConfigError::DeleteMissing));

    // can't delete default list
    assert_eq!(config.delete_list(name), Err(ConfigError::DeleteDefault));

    // happy path delete
    assert_eq!(config.all_lists().len(), 2);
    assert_eq!(config.delete_list(name2), Ok(name2.to_string()));
    assert_eq!(config.all_lists().len(), 1);
}

#[test]
fn set_default_by_index_and_name() {
    let mut config = WychConfig::new("a".into(), vec!["a".into(), "b".into(), "c".into()]);
    assert_eq!(config.set_default("2", true), Ok(()));
    assert_eq!(config.get_default(), "c");
    assert_eq!(config.set_default("b", true), Ok(()));
    assert_eq!(config.get_default(), "b");
    // names no list: nothing happens
    assert_eq!(config.set_default("zzz", true), Ok(()));
    assert_eq!(config.set_default("9", true), Ok(()));
    assert_eq!(config.get_default(), "b");
    // the list's file is gone
    assert_eq!(config.set_default("a", false), Err(ConfigError::ListMissing));
    assert_eq!(config.get_default(), "b");
}

#[test]
fn copy_to_unknown_list_records_it_once() {
    let mut config = WychConfig::new("a".into(), vec!["a".into()]);
    assert_eq!(config.copy_csv_list("a", true, true, true), Ok(true));
    assert_eq!(names(&config), vec!["a".to_string()]);
    assert_eq!(config.copy_csv_list("b", true, false, false), Ok(true));
    assert_eq!(names(&config), vec!["a".to_string(), "b".to_string()]);
    assert_eq!(config.get_default(), "a");
}

#[test]
fn paths_under_home() {
    assert_eq!(config_file("/home/me"), "/home/me/.config/wych_book/config.json");
    assert_eq!(csv_file("/home/me", "books"), "/home/me/.config/wych_book/lists/books.csv");
    let config = WychConfig::new("mine".into(), vec!["mine".into()]);
    assert_eq!(config.default_csv("/h"), "/h/.config/wych_book/lists/mine.csv");
}

#[test]
fn config_listing_and_messages() {
    let config = WychConfig::new("b".into(), vec!["a".into(), "b".into()]);
    assert_eq!(config.to_string(), "Default List: b\nAll Lists:\n- 0: a\n- 1: b\n");
    assert_eq!(ConfigError::ListMissing.message(), "Provided list does not exist");
    assert_eq!(ConfigError::DeleteMissing.message(), "Cannot delete a non-existent list");
    assert_eq!(ConfigError::DeleteDefault.message(), "Cannot delete default list");
    assert_eq!(ConfigError::CopyMissing.message(), "Cannot copy a non-existent list");
}
