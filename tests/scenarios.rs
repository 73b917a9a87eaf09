use wych_book::book::{Book, Header};
use wych_book::book_records::BookRecords;
use wych_book::cli::{parse_choice, Commands};

fn three_authors(weights: [u8; 3]) -> BookRecords {
    vec![
        Book::new("B. B. Author".into(), "A Title2".into(), weights[0]),
        Book::new("A. Something Writer".into(), "The Title1".into(), weights[1]),
        Book::new("C. A. Hack".into(), "Bad Title3".into(), weights[2]),
    ]
    .into()
}

#[test]
fn draw_frequencies_follow_weights() {
    let books = three_authors([1, 0, 3]);
    let mut counts = [0u32; 3];
    for _ in 0..4000 {
        let b = books.select_random_book().unwrap();
        let i = books.records().iter().position(|x| x == b).unwrap();
        counts[i] += 1;
    }
    assert_eq!(counts[1], 0);
    // expected 1000 and 3000
    assert!(counts[0] > 800 && counts[0] < 1200, "{:?}", counts);
    assert!(counts[2] > 2800 && counts[2] < 3200, "{:?}", counts);
}

#[test]
fn draw_from_empty_or_weightless_list_gives_nothing() {
    assert!(BookRecords::new().select_random_book().is_none());
    assert!(three_authors([0, 0, 0]).select_random_book().is_none());
    assert!(BookRecords::new().weighted_index_vector().is_empty());
}

#[test]
fn change_weight_clamps_and_reset_sets_one() {
    let mut books = three_authors([0, 0, 0]);
    books.change_weight("0", 11);
    books.change_weight("1", 10);
    books.change_weight("2", 255);
    let w: Vec<u8> = books.records().iter().map(|b| b.weight).collect();
    assert_eq!(w, vec![10, 10, 10]);
    books.reset_weights();
    let w: Vec<u8> = books.records().iter().map(|b| b.weight).collect();
    assert_eq!(w, vec![1, 1, 1]);
}

#[test]
fn misses_leave_list_unchanged() {
    let unchanged = three_authors([3, 2, 0]);
    let mut books = unchanged.clone();
    books.remove_book("3");
    books.change_weight("3", 5);
    books.remove_book("No Such Title");
    books.change_weight("No Such Title", 5);
    assert_eq!(books, unchanged);
}

#[test]
fn sort_by_weight_and_author() {
    let mut books = three_authors([5, 1, 4]);
    books.sort_by(Header::Weight);
    let w: Vec<u8> = books.records().iter().map(|b| b.weight).collect();
    assert_eq!(w, vec![1, 4, 5]);

    let mut books = three_authors([5, 1, 4]);
    books.sort_by(Header::Author);
    let a: Vec<String> = books.records().iter().map(|b| b.author.clone()).collect();
    assert_eq!(a, vec!["A. Something Writer", "B. B. Author", "C. A. Hack"]);
}

#[test]
fn sort_is_stable_on_equal_keys() {
    let mut books: BookRecords = vec![
        Book::new("x".into(), "1".into(), 2),
        Book::new("y".into(), "2".into(), 1),
        Book::new("z".into(), "3".into(), 2),
        Book::new("w".into(), "4".into(), 1),
    ]
    .into();
    books.sort_by(Header::Weight);
    let t: Vec<String> = books.records().iter().map(|b| b.title.clone()).collect();
    assert_eq!(t, vec!["2", "4", "1", "3"]);
    let before = books.clone();
    books.sort_by(Header::Index);
    assert_eq!(books, before);
}

#[test]
fn sort_text_by_bytes() {
    let mut books: BookRecords = vec![
        Book::new("b".into(), "t".into(), 1),
        Book::new("B".into(), "t".into(), 1),
        Book::new("ab".into(), "t".into(), 1),
        Book::new("a".into(), "t".into(), 1),
    ]
    .into();
    books.sort_by(Header::Author);
    let a: Vec<String> = books.records().iter().map(|b| b.author.clone()).collect();
    assert_eq!(a, vec!["B", "a", "ab", "b"]);
}

#[test]
fn kafka_then_ogawa_end_to_end() {
    let mut books: BookRecords =
        vec![Book::new("Franz Kafka".into(), "The Metamorphosis".into(), 1)].into();
    books.add_book("Yoko Ogawa", "The Memory Police");
    assert_eq!(books.get(1).unwrap().weight, 1);
    books.change_weight("1", 20);
    assert_eq!(books.get(1).unwrap().weight, 10);
    books.sort_by(Header::Title);
    let t: Vec<String> = books.records().iter().map(|b| b.title.clone()).collect();
    assert_eq!(t, vec!["The Memory Police", "The Metamorphosis"]);
}

fn read_back(table: &str) -> Vec<(String, String, String)> {
    let lines: Vec<&str> = table.split('\n').collect();
    let mut out: Vec<(String, String, String)> = Vec::new();
    let mut current: Option<(String, String, String)> = None;
    for line in &lines[3..] {
        if line.starts_with('-') {
            if let Some(c) = current.take() {
                out.push(c);
            }
            continue;
        }
        let chars: Vec<char> = line.chars().collect();
        let cell = |from: usize, to: usize| -> String {
            chars[from..to].iter().collect::<String>().trim().to_string()
        };
        let (a, t, w) = (cell(6, 27), cell(28, 68), cell(69, 79));
        match current.as_mut() {
            Some(c) => {
                c.0.push_str(&a);
                c.1.push_str(&t);
            }
            None => current = Some((a, t, w)),
        }
    }
    out
}

#[test]
fn table_reads_back_to_records() {
    let books: BookRecords = vec![
        Book::new("Franz Kafka".into(), "The Metamorphosis".into(), 1),
        Book::new(
            "Anonymous Secretive Writer".into(),
            "Let this be the too long title of their_debut: A Novel in multiple parts".into(),
            10,
        ),
        Book::new("Yoko Ogawa".into(), "The Memory Police".into(), 0),
    ]
    .into();
    let table = books.to_string();
    let back = read_back(&table);
    assert_eq!(back.len(), 3);
    for (b, r) in books.records().iter().zip(back.iter()) {
        assert_eq!(b.author, r.0);
        assert_eq!(b.title, r.1);
        assert_eq!(b.weight.to_string(), r.2);
    }
}

#[test]
fn table_layout() {
    let books: BookRecords = vec![Book::new("A. Writer".into(), "Title1".into(), 5)].into();
    let dash = "-".repeat(80);
    let expected = format!(
        "{dash}\n|    |       author        |                 title                  |  weight  |\n{}\n| 0  |      A. Writer      |                 Title1                 |    5     |\n{dash}",
        "=".repeat(80)
    );
    assert_eq!(books.to_string(), expected);

    let empty = BookRecords::new().to_string();
    let lines: Vec<&str> = empty.split('\n').collect();
    assert_eq!(lines.len(), 5);
    assert_eq!(lines[3], "");
}

#[test]
fn table_separates_blocks_with_rule() {
    let books: BookRecords = vec![
        Book::new("a".into(), "b".into(), 1),
        Book::new("c".into(), "d".into(), 2),
    ]
    .into();
    let table = books.to_string();
    let lines: Vec<&str> = table.split('\n').collect();
    assert_eq!(lines.len(), 7);
    assert_eq!(lines[4], "-".repeat(80));
    assert!(lines[5].starts_with("| 1  |"));
}

#[test]
fn choices_and_table_flags() {
    assert_eq!(parse_choice("Y"), Ok(true));
    assert_eq!(parse_choice("y"), Ok(true));
    assert_eq!(parse_choice("N"), Ok(false));
    assert_eq!(parse_choice("n"), Ok(false));
    assert_eq!(parse_choice("yes"), Err("Invalid user input. Valid choices are [Y/n]"));
    assert!(Commands::List.prints_table(true));
    assert!(!Commands::Wych.prints_table(true));
    assert!(Commands::Wych.prints_table(false));
}
