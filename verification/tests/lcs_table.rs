use diff_tool::{compute_lcs_len_recursive, compute_lcs_matrix_dp, compute_lcs_string_dp};

#[test]
fn compute_lcs_len_recursive_test() {
    let s1: Vec<char> = String::from("abcd").chars().collect();
    let s2: Vec<char> = String::from("abcd").chars().collect();
    let actual = compute_lcs_len_recursive(s1.len(), s2.len(), &s1, &s2);
    assert_eq!(actual, 4);
}

#[test]
fn compute_lcs_matrix_dp_test() {
    let s1: Vec<char> = String::from("bdcaba").chars().collect();
    let s2: Vec<char> = String::from("abcbdab").chars().collect();
    let actual = compute_lcs_matrix_dp(&s1, &s2);

    assert_eq!(actual[0][0], 0);
    assert_eq!(actual.len(), s2.len() + 1);
    assert_eq!(actual[0].len(), s1.len() + 1);
}

#[test]
fn compute_lcs_string_dp_test() {
    let s1: Vec<char> = String::from("abcddddd").chars().collect();
    let s2: Vec<char> = String::from("abzdcd").chars().collect();
    let actual = compute_lcs_string_dp(&s1, &s2);

    assert_eq!(actual, "abcd");
}

#[test]
fn recursive_length_of_prefixes() {
    let s1: Vec<char> = "abcbdab".chars().collect();
    let s2: Vec<char> = "bdcaba".chars().collect();
    assert_eq!(compute_lcs_len_recursive(s1.len(), s2.len(), &s1, &s2), 4);
    assert_eq!(compute_lcs_len_recursive(3, 3, &s1, &s2), 2);
    assert_eq!(compute_lcs_len_recursive(0, 6, &s1, &s2), 0);
    assert_eq!(compute_lcs_len_recursive(7, 0, &s1, &s2), 0);
}

#[test]
fn recursive_length_agrees_with_the_table() {
    let old: Vec<char> = "zaabck".chars().collect();
    let new: Vec<char> = "abecd".chars().collect();
    let table = compute_lcs_matrix_dp(&new, &old);
    for i in 0..=old.len() {
        for j in 0..=new.len() {
            assert_eq!(table[i][j], compute_lcs_len_recursive(i, j, &old, &new));
        }
    }
}

#[test]
fn lcs_string_of_disjoint_and_empty_texts() {
    let a: Vec<char> = "abc".chars().collect();
    let b: Vec<char> = "xyz".chars().collect();
    let none: Vec<char> = Vec::new();
    assert_eq!(compute_lcs_string_dp(&a, &b), "");
    assert_eq!(compute_lcs_string_dp(&a, &none), "");
    assert_eq!(compute_lcs_string_dp(&none, &b), "");
    assert_eq!(compute_lcs_string_dp(&a, &a), "abc");
}

#[test]
fn lcs_string_keeps_the_order_of_both_texts() {
    let a: Vec<char> = "abcbdab".chars().collect();
    let b: Vec<char> = "bdcaba".chars().collect();
    let common = compute_lcs_string_dp(&a, &b);
    assert_eq!(common.chars().count(), 4);
    assert_eq!(common, "bcba");
}
