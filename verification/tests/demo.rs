use demo_basics::fibonacci;
use demo_basics::fibonacci_checked;
use demo_basics::greeting;
use demo_basics::languages;
use demo_basics::numbered_languages;
use demo_basics::score_table;
use demo_basics::sum;
use demo_basics::ScoreMap;

#[test]
fn fib_base_cases() {
    assert_eq!(fibonacci(0), 0);
    assert_eq!(fibonacci(1), 1);
}

#[test]
fn fib_matches_recurrence() {
    for n in 2..=20u32 {
        assert_eq!(fibonacci(n), fibonacci(n - 1) + fibonacci(n - 2));
    }
}

#[test]
fn fib_of_ten() {
    assert_eq!(fibonacci(10), 55);
}

#[test]
fn fib_checked_agrees_in_range() {
    for n in 0..=25u32 {
        assert_eq!(fibonacci_checked(n), Some(fibonacci(n)));
    }
}

#[test]
fn fib_checked_at_the_edge() {
    assert_eq!(fibonacci_checked(47), Some(2971215073));
    assert_eq!(fibonacci_checked(48), None);
    assert_eq!(fibonacci_checked(1_000_000), None);
}

#[test]
fn sum_of_ten_and_twenty() {
    assert_eq!(sum(10, 20), 30);
}

#[test]
fn sum_with_negatives() {
    assert_eq!(sum(-5, 5), 0);
    assert_eq!(sum(i32::MAX, 0), i32::MAX);
}

#[test]
fn greeting_line() {
    assert_eq!(greeting(), "Hello from Rust!");
}

#[test]
fn languages_in_order() {
    let names = languages();
    assert_eq!(names, vec!["Rust", "Python", "JavaScript", "Java", "Go"]);
}

#[test]
fn ordinals_match_positions() {
    let numbered = numbered_languages();
    let expected = vec![
        (1usize, "Rust"),
        (2, "Python"),
        (3, "JavaScript"),
        (4, "Java"),
        (5, "Go"),
    ];
    assert_eq!(numbered, expected);
}

#[test]
fn score_table_holds_exactly_three_pairs() {
    let table = score_table();
    assert_eq!(table.len(), 3);
    assert_eq!(table.get("Rust"), Some(95));
    assert_eq!(table.get("Python"), Some(90));
    assert_eq!(table.get("JavaScript"), Some(85));
    assert_eq!(table.get("Go"), None);
    assert_eq!(table.get(""), None);
}

#[test]
fn score_table_pairs_list_every_binding_once() {
    let table = score_table();
    let pairs = table.pairs();
    assert_eq!(pairs.len(), 3);
    let mut sorted: Vec<(String, i32)> = pairs.clone();
    sorted.sort();
    let expected = vec![
        ("JavaScript".to_string(), 85),
        ("Python".to_string(), 90),
        ("Rust".to_string(), 95),
    ];
    assert_eq!(sorted, expected);
}

#[test]
fn insert_overwrites_an_existing_key() {
    let mut table = ScoreMap::new();
    table.insert("Rust", 1);
    table.insert("Rust", 2);
    assert_eq!(table.len(), 1);
    assert_eq!(table.get("Rust"), Some(2));
}

#[test]
fn empty_table_answers_nothing() {
    let table = ScoreMap::new();
    assert_eq!(table.len(), 0);
    assert_eq!(table.get("Rust"), None);
    assert_eq!(table.pairs().len(), 0);
}

#[test]
fn output_fragments() {
    let fib_line = format!("Fibonacci(10) = {}", fibonacci(10));
    assert_eq!(fib_line, "Fibonacci(10) = 55");
    let sum_line = format!("Sum of {} and {} is: {}", 10, 20, sum(10, 20));
    assert_eq!(sum_line, "Sum of 10 and 20 is: 30");
}
