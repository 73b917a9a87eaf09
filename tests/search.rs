use wych_book::config::WychConfig;
use wych_book::search::IndexSearch;

/// A collection of names, looked up by index or by exact name.
struct Tester;

impl Tester {
    pub fn values() -> WychConfig {
        WychConfig::new(
            String::new(),
            vec!["hello".to_string(), "world".into(), "saluton".into()],
        )
    }

    pub fn of(names: Vec<String>) -> WychConfig {
        WychConfig::new(String::new(), names)
    }
}

#[test]
fn test_get_with_index() {
    let tester = Tester::values();

    let result = tester.get_from_input("1");
    let expected = (1 as usize, &"world".to_string());
    assert_eq!(result.unwrap(), expected);

    let result = tester.get_from_input("100");
    assert!(result.is_none());
}

#[test]
fn test_get_with_value() {
    let tester = Tester::values();

    let result = tester.get_from_input("saluton");
    let expected = (2 as usize, &"saluton".to_string());
    assert_eq!(result.unwrap(), expected);

    let result = tester.get_from_input("hola");
    assert!(result.is_none());
}

#[test]
fn resolve_index_against_three_items() {
    let tester = Tester::values();
    assert_eq!(tester.get_from_input("1").unwrap().0, 1);
    assert!(tester.get_from_input("3").is_none());
    assert_eq!(tester.get_from_input("hello").unwrap(), (0, &"hello".to_string()));
}

#[test]
fn resolve_reads_index_like_std() {
    let tester = Tester::values();
    assert_eq!(tester.get_from_input("+2").unwrap().0, 2);
    assert_eq!(tester.get_from_input("002").unwrap().0, 2);
    // too large for an index, so it is looked up as a name
    assert!(tester.get_from_input("99999999999999999999999").is_none());
    assert!(tester.get_from_input("").is_none());
    assert!(tester.get_from_input("-1").is_none());
}

#[test]
fn resolve_first_of_equal_names() {
    let tester = Tester::of(vec!["a".into(), "b".into(), "b".into()]);
    assert_eq!(tester.get_from_input("b").unwrap().0, 1);
}

#[test]
fn resolve_numeric_name_is_an_index() {
    // A name that reads as a number is taken as a position, never as a name.
    let tester = Tester::of(vec!["7".into(), "x".into()]);
    assert!(tester.get_from_input("7").is_none());
    assert_eq!(tester.get_from_input("0").unwrap(), (0, &"7".to_string()));
}
