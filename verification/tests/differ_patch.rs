use diff_tool::Differ;

#[test]
fn compute_lev_ok() {
    // arrange
    let text1 = "add".to_string();
    // let text2 = "daddy".to_string();
    let text2 = "adyd".to_string();
    let expected = vec![('A', 2, 'y')];

    // act
    let actual = Differ::diff_by_lev(text1, text2);

    // assert
    assert_eq!(expected, actual);
}

#[test]
fn compute_lcs_ok_1() {
    // arrange
    let text1 = "add".to_string();
    let text2 = "adyd".to_string();
    let expected = vec![('+', 2, 'y')];

    // act
    let actual = Differ::diff_by_lcs(&text1.chars().collect(), &text2.chars().collect());

    // assert
    assert_eq!(expected, actual);
}

#[test]
fn compute_lcs_ok_2() {
    // arrange
    let text1 = "add".to_string();
    let text2 = "add".to_string();
    let expected: Vec<(char, usize, char)> = Vec::new();

    // act
    let actual = Differ::diff_by_lcs(&text1.chars().collect(), &text2.chars().collect());

    // assert
    assert_eq!(expected, actual);
}

#[test]
fn compute_lcs_ok_3() {
    // arrange
    let text1 = "addy".to_string();
    let text2 = "add".to_string();
    let expected: Vec<(char, usize, char)> = vec![('-', 3, 'y')];

    // act
    let actual = Differ::diff_by_lcs(&text1.chars().collect(), &text2.chars().collect());

    // assert
    assert_eq!(expected, actual);
}

#[test]
fn compute_lcs_ok_4() {
    // arrange
    let text1 = "yadd".to_string();
    let text2 = "add".to_string();
    let expected: Vec<(char, usize, char)> = vec![('-', 0, 'y')];

    // act
    let actual = Differ::diff_by_lcs(&text1.chars().collect(), &text2.chars().collect());

    // assert
    assert_eq!(expected, actual);
}

#[test]
fn compute_lcs_ok_5() {
    // arrange
    let text1 = "ccc".to_string();
    let text2 = "add".to_string();
    let expected: Vec<(char, usize, char)> = vec![
        ('-', 0, 'c'),
        ('-', 1, 'c'),
        ('-', 2, 'c'),
        ('+', 0, 'a'),
        ('+', 1, 'd'),
        ('+', 2, 'd'),
    ];

    // act
    let actual = Differ::diff_by_lcs(&text1.chars().collect(), &text2.chars().collect());

    // assert
    assert_eq!(expected, actual);
}

#[test]
fn differ_new_keeps_both_texts() {
    let differ = Differ::new(String::from("one"), String::from("two"));
    assert_eq!(differ.text1, "one");
    assert_eq!(differ.text2, "two");
}

#[test]
fn compute_lcs_table_has_a_row_per_prefix_of_the_first_text() {
    let text1: Vec<char> = "abcbdab".chars().collect();
    let text2: Vec<char> = "bdcaba".chars().collect();
    let table = Differ::compute_lcs_table(&text1, &text2);
    assert_eq!(table.len(), 8);
    assert_eq!(table[0], vec![0, 0, 0, 0, 0, 0, 0]);
    assert_eq!(table[3], vec![0, 1, 1, 2, 2, 2, 2]);
    assert_eq!(table[7], vec![0, 1, 2, 2, 3, 4, 4]);
}

#[test]
fn diff_by_lcs_places_each_side_in_its_own_text() {
    // old "zaabck", new "abecd": -z -a a b +e c -k +d
    let text1: Vec<char> = "zaabck".chars().collect();
    let text2: Vec<char> = "abecd".chars().collect();
    let actual = Differ::diff_by_lcs(&text1, &text2);
    let expected = vec![
        ('-', 0, 'z'),
        ('-', 1, 'a'),
        ('+', 2, 'e'),
        ('-', 5, 'k'),
        ('+', 4, 'd'),
    ];
    assert_eq!(actual, expected);
}

#[test]
fn diff_by_lcs_on_strings() {
    let text1 = vec![String::from("She"), String::from("is")];
    let text2 = vec![String::from("He"), String::from("is")];
    let actual = Differ::diff_by_lcs(&text1, &text2);
    let expected = vec![
        ('-', 0, String::from("She")),
        ('+', 0, String::from("He")),
    ];
    assert_eq!(actual, expected);
}

#[test]
fn diff_by_lev_lists_the_last_step_first() {
    let actual = Differ::diff_by_lev("xay".to_string(), "a".to_string());
    assert_eq!(actual, vec![('R', 2, 'y'), ('R', 0, 'x')]);
}

#[test]
fn diff_by_lev_removes_on_a_tie() {
    // Where adding 'c' and removing 'a' cost the same, the removal is the
    // last step, so it is listed first.
    let actual = Differ::diff_by_lev("ab".to_string(), "cb".to_string());
    assert_eq!(actual, vec![('R', 0, 'a'), ('A', 0, 'c')]);
}

#[test]
fn diff_by_lev_on_empty_sides() {
    assert_eq!(
        Differ::diff_by_lev(String::new(), "ab".to_string()),
        vec![('A', 1, 'b'), ('A', 0, 'a')]
    );
    assert_eq!(
        Differ::diff_by_lev("ab".to_string(), String::new()),
        vec![('R', 1, 'b'), ('R', 0, 'a')]
    );
    assert_eq!(Differ::diff_by_lev(String::new(), String::new()), vec![]);
}

#[test]
fn diff_by_lev_counts_characters() {
    let actual = Differ::diff_by_lev("añ".to_string(), "a".to_string());
    assert_eq!(actual, vec![('R', 1, 'ñ')]);
}
