use wych_book::book::{Book, Header};
use wych_book::book_records::{BookRecords, MAX_WEIGHT};

fn books_to_test(weights: Vec<u8>) -> BookRecords {
    vec![
        Book::new("B. B. Author".into(), "A Title2".into(), weights[0]),
        Book::new(
            "A. Something Writer".into(),
            "The Title1".into(),
            weights[1],
        ),
        Book::new("C. A. Hack".into(), "Bad Title3".into(), weights[2]),
    ]
    .into()
}

fn collect_weights(books: &BookRecords) -> Vec<u8> {
    books.records().iter().map(|b| b.weight).collect()
}

#[test]
fn book_record_test_weighted_index_vector() {
    let books: BookRecords = vec![
        Book::new("A. Writer".into(), "Title1".into(), 3),
        Book::new("B. B. Author".into(), "Title2".into(), 2),
        Book::new("C. A. Hack".into(), "Title3".into(), 0),
    ]
    .into();
    let result = books.weighted_index_vector();
    assert_eq!(result, vec![0, 0, 0, 1, 1])
}

#[test]
fn book_record_test_random_book_selector() {
    let books: BookRecords = vec![
        Book::new("A. Writer".into(), "Title1".into(), 0),
        Book::new("B. B. Author".into(), "Title2".into(), 5),
        Book::new("C. A. Hack".into(), "Title3".into(), 0),
    ]
    .into();
    let result = books.select_random_book();
    // should always return second book
    assert_eq!(result.unwrap(), books.get(1).unwrap());

    let books: BookRecords = vec![Book::new("A. Writer".into(), "Title1".into(), 0)].into();
    assert!(books.select_random_book().is_none());
}

#[test]
fn book_records_test_weighted_index_vector() {
    let books: BookRecords = books_to_test(vec![3, 2, 0]);
    let result = books.weighted_index_vector();
    assert_eq!(result, vec![0, 0, 0, 1, 1])
}

#[test]
fn book_records_test_random_book_selector() {
    let books: BookRecords = books_to_test(vec![0, 5, 0]);

    let result = books.select_random_book();
    // should always return second book
    assert_eq!(result.unwrap(), books.get(1).unwrap());

    let books: BookRecords = vec![Book::new("A. Writer".into(), "Title1".into(), 0)].into();
    assert!(books.select_random_book().is_none());
}

#[test]
fn book_records_test_book_records_sorting() {
    let mut books: BookRecords = books_to_test(vec![5, 1, 4]);

    books.sort_by(Header::Author);
    assert_eq!(collect_weights(&books), vec![1, 5, 4]);

    books.sort_by(Header::Title);
    assert_eq!(collect_weights(&books), vec![5, 4, 1]);

    books.sort_by(Header::Weight);
    assert_eq!(collect_weights(&books), vec![1, 4, 5]);
}

#[test]
fn book_records_test_remove_book() {
    let mut books: BookRecords = books_to_test(vec![3, 2, 0]);
    books.remove_book("1");
    books.remove_book("18"); // does nothing
    assert_eq!(collect_weights(&books), vec![3, 0]);

    let mut books: BookRecords = books_to_test(vec![3, 2, 0]);
    let book_title = &books.get(2).unwrap().title.clone();
    books.remove_book(book_title);
    books.remove_book("Non-existent title"); // does nothing
    assert_eq!(collect_weights(&books), vec![3, 2]);
}

#[test]
fn book_records_test_change_weight() {
    let mut books: BookRecords = books_to_test(vec![3, 2, 0]);
    books.change_weight("0", 8);
    assert_eq!(collect_weights(&books), vec![8, 2, 0]);

    let book_title = &books.get(2).unwrap().title.clone();
    books.change_weight(book_title, 3);
    assert_eq!(collect_weights(&books), vec![8, 2, 3]);

    books.change_weight("1", 80); // 80 changed to MAX_WEIGHT
    assert_eq!(collect_weights(&books), vec![8, MAX_WEIGHT, 3]);

    // does nothing
    books.change_weight("10", 8); // index doesn't exist
    books.change_weight("Non-existent title", 8); // book doesn't exist
    assert_eq!(collect_weights(&books), vec![8, MAX_WEIGHT, 3]);
}

#[test]
fn test_reset_weights() {
    let mut books: BookRecords = books_to_test(vec![3, 2, 0]);
    books.reset_weights();
    assert_eq!(collect_weights(&books), vec![1; 3]);
}

#[test]
fn test_get_books() {
    let mut books = BookRecords::default();
    books.add_book("Franz Kafka", "The Castle");
    books.add_book("Yoko Ogawa", "The Memory Police");
    assert_eq!(2, books.records().len());

    assert_eq!("Franz Kafka", books.get_book("The Castle").unwrap().author);
    assert_eq!("The Memory Police", books.get_book("1").unwrap().title);
    assert_eq!(None, books.get_book("100"));
    assert_eq!(None, books.get_book("Ulysses"));
}
