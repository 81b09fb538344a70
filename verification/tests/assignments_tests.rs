use sitewatch::numbers::{
    check_guess, fizzbuzz_label, guess_attempts, is_even, largest_of, sum_of, sum_with_step,
};
use sitewatch::words::{most_frequent_word, split_words};

#[test]
fn parity() {
    assert!(is_even(0));
    assert!(is_even(4));
    assert!(!is_even(7));
    assert!(is_even(-2));
    assert!(!is_even(-3));
}

#[test]
fn guess_judgement() {
    assert_eq!(check_guess(42, 42), 0);
    assert_eq!(check_guess(50, 42), 1);
    assert_eq!(check_guess(10, 42), -1);
}

#[test]
fn guessing_game_attempt_count() {
    assert_eq!(guess_attempts(10, 42), 33);
    assert_eq!(guess_attempts(42, 42), 1);
    assert_eq!(guess_attempts(45, 42), 4);
}

#[test]
fn fizzbuzz_labels() {
    assert_eq!(fizzbuzz_label(15), "FizzBuzz");
    assert_eq!(fizzbuzz_label(9), "Fizz");
    assert_eq!(fizzbuzz_label(10), "Buzz");
    assert_eq!(fizzbuzz_label(8), "Even");
    assert_eq!(fizzbuzz_label(7), "Odd");
}

#[test]
fn sum_and_largest_of_one_to_ten() {
    let numbers: Vec<i32> = vec![1, 2, 3, 4, 5, 6, 7, 8, 9, 10];
    assert_eq!(sum_of(&numbers), 55);
    assert_eq!(largest_of(&numbers), 10);
}

#[test]
fn sum_with_step_cases() {
    let mut result: i32 = 0;
    sum_with_step(&mut result, 0, 100, 1);
    assert_eq!(result, 5050);

    result = 0;
    sum_with_step(&mut result, 0, 10, 2);
    assert_eq!(result, 30);

    result = 0;
    sum_with_step(&mut result, 5, 15, 3);
    assert_eq!(result, 38);
}

#[test]
fn splitting_words() {
    assert_eq!(
        split_words("  the quick\tbrown\nfox  "),
        vec!["the".to_string(), "quick".to_string(), "brown".to_string(), "fox".to_string()]
    );
    assert!(split_words("").is_empty());
    assert!(split_words("   \t\n").is_empty());
}

#[test]
fn most_frequent_word_of_sample_text() {
    let text = "the quick brown fox jumps over the lazy dog the quick brown fox";
    let (word, count) = most_frequent_word(text);
    assert_eq!(word, "the");
    assert_eq!(count, 3);
}

#[test]
fn most_frequent_word_empty_text() {
    assert_eq!(most_frequent_word(""), (String::new(), 0));
}

#[test]
fn most_frequent_word_tie_goes_to_first_occurrence() {
    assert_eq!(most_frequent_word("b a b a"), ("b".to_string(), 2));
}
