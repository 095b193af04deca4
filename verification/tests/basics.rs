use learn_rust_with_tests::arrays;
use learn_rust_with_tests::errors::v2::{Bitcoin, InsufficientFundsError, Wallet};
use learn_rust_with_tests::hello_world;
use learn_rust_with_tests::integers;
use learn_rust_with_tests::iteration;
use learn_rust_with_tests::iterators;
use learn_rust_with_tests::iterators::v4::Countdown;
use learn_rust_with_tests::lifetimes;

#[test]
fn sums_a_collection_of_numbers() {
    let numbers = [1, 2, 3, 4, 5];

    let got = arrays::v1::sum(numbers);
    let want = 15;

    assert_eq!(got, want, "given {numbers:?}");
}

#[test]
fn sums_a_collection_of_any_size() {
    let numbers = [1, 2, 3];

    let got = arrays::v3::sum(&numbers);
    let want = 6;

    assert_eq!(got, want, "given {numbers:?}");
    assert_eq!(arrays::v5::sum(&numbers), want);
    assert_eq!(iterators::v3::sum(&numbers), want);
}

#[test]
fn sums_several_collections() {
    let got = arrays::v3::sum_all(&[&[1, 2], &[0, 9]]);
    let want = vec![3, 9];

    assert_eq!(got, want);
}

#[test]
fn lib_sums_the_tails_of_several_collections() {
    assert_eq!(arrays::v5::sum_all_tails(&[&[1, 2], &[0, 9]]), vec![2, 9]);
    assert_eq!(iterators::v3::sum_all_tails(&[&[1, 2], &[0, 9]]), vec![2, 9]);
}

#[test]
fn lib_safely_sums_empty_collections() {
    assert_eq!(arrays::v5::sum_all_tails(&[&[], &[3, 4, 5]]), vec![0, 9]);
    assert_eq!(iterators::v3::sum_all_tails(&[&[], &[3, 4, 5]]), vec![0, 9]);
}

#[test]
fn sums_of_nothing_are_zero() {
    assert_eq!(arrays::v3::sum(&[]), 0);
    assert_eq!(arrays::v3::sum_all(&[]), Vec::<i32>::new());
    assert_eq!(arrays::v3::sum(&[-4, 4, i32::MAX]), i32::MAX);
}

#[test]
fn lib_adding_two_numbers() {
    assert_eq!(integers::v1::add(2, 2), 4);
    assert_eq!(integers::v2::add(2, 2), 4);
}

#[test]
fn lib_repeats_the_character() {
    assert_eq!(iteration::v1::repeat("a"), "aaaaa");
    assert_eq!(iteration::v3::repeat("a"), "aaaaa");
    assert_eq!(iteration::v4::repeat("a"), "aaaaa");
}

#[test]
fn repeating_longer_text_repeats_all_of_it() {
    assert_eq!(iteration::v1::repeat("ab"), "ababababab");
    assert_eq!(iteration::v4::repeat("é"), "ééééé");
    assert_eq!(iteration::v3::repeat(""), "");
}

#[test]
fn saying_hello_to_the_world() {
    assert_eq!(hello_world::v2::hello(), "Hello, world");
}

#[test]
fn main_saying_hello_to_people() {
    assert_eq!(hello_world::v3::hello("Chris"), "Hello, Chris");
    assert_eq!(hello_world::v5::hello("Chris", ""), "Hello, Chris");
}

#[test]
fn empty_string_defaults_to_world() {
    assert_eq!(hello_world::v5::hello("", ""), "Hello, World");
}

#[test]
fn in_spanish() {
    assert_eq!(hello_world::v5::hello("Elodie", "Spanish"), "Hola, Elodie");
}

#[test]
fn other_languages_are_greeted_in_english() {
    assert_eq!(hello_world::v5::hello("Elodie", "spanish"), "Hello, Elodie");
    assert_eq!(hello_world::v5::hello("", "Spanish"), "Hola, World");
}

#[test]
fn deposits_into_the_wallet() {
    let mut wallet = Wallet::default();

    wallet.deposit(Bitcoin(10));

    assert_eq!(wallet.balance(), Bitcoin(10));
}

#[test]
fn withdraws_from_the_wallet() {
    let mut wallet = Wallet {
        balance: Bitcoin(20),
    };

    let result = wallet.withdraw(Bitcoin(10));

    assert!(result.is_ok());
    assert_eq!(wallet.balance(), Bitcoin(10));
}

#[test]
fn refuses_to_withdraw_more_than_the_balance() {
    let mut wallet = Wallet {
        balance: Bitcoin(20),
    };

    let result = wallet.withdraw(Bitcoin(100));

    assert_eq!(result, Err(InsufficientFundsError));
    assert_eq!(wallet.balance(), Bitcoin(20));
}

#[test]
fn withdrawing_everything_leaves_nothing() {
    let mut wallet = Wallet::default();
    wallet.deposit(Bitcoin(7));
    assert_eq!(wallet.withdraw(Bitcoin(7)), Ok(()));
    assert_eq!(wallet.balance(), Bitcoin(0));
    assert_eq!(wallet.withdraw(Bitcoin(1)), Err(InsufficientFundsError));
}

#[test]
fn bitcoin_shows_its_amount() {
    assert_eq!(Bitcoin(10).to_string(), "10 BTC");
    assert_eq!(Bitcoin(0).to_string(), "0 BTC");
    assert_eq!(Bitcoin(u64::MAX).to_string(), "18446744073709551615 BTC");
}

#[test]
fn returns_everything_up_to_the_first_full_stop() {
    let article = "Ownership is the star of the show. Everything else orbits it.";

    assert_eq!(lifetimes::v1::first_sentence(article), "Ownership is the star of the show");
    assert_eq!(lifetimes::v2::first_sentence(article), "Ownership is the star of the show");
}

#[test]
fn returns_the_whole_text_when_there_is_no_full_stop() {
    assert_eq!(lifetimes::v1::first_sentence("no full stop here"), "no full stop here");
}

#[test]
fn returns_the_longer_of_two_excerpts() {
    assert_eq!(lifetimes::v1::longer("short", "a good deal longer"), "a good deal longer");
}

#[test]
fn ties_and_multibyte_text_in_first_sentence_and_longer() {
    assert_eq!(lifetimes::v1::first_sentence(".starts with a stop"), "");
    assert_eq!(lifetimes::v1::first_sentence("héllo. wörld"), "héllo");
    assert_eq!(lifetimes::v1::longer("abc", "xyz"), "abc");
    assert_eq!(lifetimes::v1::longer("abc", "é"), "abc");
    assert_eq!(lifetimes::v1::longer("ab", "éé"), "éé");
}

#[test]
fn shout_returns_an_upper_case_copy() {
    assert_eq!(
        lifetimes::v2::shout("may contain traces of lifetimes"),
        "MAY CONTAIN TRACES OF LIFETIMES"
    );
}

#[test]
fn preview_shows_the_title_and_the_first_sentence() {
    let body = "Lifetimes are regions, not clocks. They are resolved entirely at \
                compile time.";

    let preview = lifetimes::v2::Preview::new("understanding lifetimes", body);

    assert_eq!(preview.title, "UNDERSTANDING LIFETIMES");
    assert_eq!(preview.excerpt, "Lifetimes are regions, not clocks");
}

#[test]
fn counts_down_from_the_start_to_one() {
    let got: Vec<u32> = Countdown::from(3).into_vec();

    assert_eq!(got, vec![3, 2, 1]);
}

#[test]
fn works_in_a_for_loop() {
    let mut output = String::new();

    let mut countdown = Countdown::from(3);
    while let Some(number) = countdown.next() {
        output.push_str(&number.to_string());
        output.push('\n');
    }

    assert_eq!(output, "3\n2\n1\n");
}

#[test]
fn every_adaptor_comes_free() {
    let doubled: Vec<u32> = Countdown::from(3).into_vec().into_iter().map(|n| n * 10).collect();
    assert_eq!(doubled, vec![30, 20, 10]);

    let total: u32 = Countdown::from(100).into_vec().into_iter().sum();
    assert_eq!(total, 5050);

    let evens_only: Vec<u32> = Countdown::from(5).into_vec().into_iter().filter(|n| n % 2 == 0).collect();
    assert_eq!(evens_only, vec![4, 2]);
}

#[test]
fn a_countdown_from_zero_is_empty_and_stays_so() {
    let mut countdown = Countdown::from(0);
    assert_eq!(countdown.next(), None);
    assert_eq!(countdown.next(), None);
    let mut countdown = Countdown::from(1);
    assert_eq!(countdown.next(), Some(1));
    assert_eq!(countdown.next(), None);
}
