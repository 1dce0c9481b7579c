use diff_tool::Content;

#[test]
fn diff_test_chars_1() {
    let new = String::from("abcd");
    let old = String::from("abc");
    let content = Content {
        new_text: new,
        old_text: old,
    };
    let actual = content.diff_by_chars();

    let expected = vec!["a", "b", "c", "+d"];
    for i in 0..actual.len() {
        assert_eq!(actual[i], expected[i]);
    }
}

#[test]
fn diff_test_chars_2() {
    let new = String::from("abcd");
    let old = String::from("");
    let content = Content {
        new_text: new,
        old_text: old,
    };
    let actual = content.diff_by_chars();

    let expected = vec!["+a", "+b", "+c", "+d"];
    for i in 0..actual.len() {
        assert_eq!(actual[i], expected[i]);
    }
}

#[test]
fn diff_test_chars_3() {
    let new = String::from("");
    let old = String::from("abcd");
    let content = Content {
        new_text: new,
        old_text: old,
    };
    let actual = content.diff_by_chars();

    let expected = vec!["-a", "-b", "-c", "-d"];
    for i in 0..actual.len() {
        assert_eq!(actual[i], expected[i]);
    }
}

#[test]
fn diff_test_chars_4() {
    let new = String::from("abecd");
    let old = String::from("zaabck");
    let content = Content {
        new_text: new,
        old_text: old,
    };
    let actual = content.diff_by_chars();

    let expected = vec!["-z", "-a", "a", "b", "+e", "c", "-k", "+d"];
    for i in 0..actual.len() {
        assert_eq!(actual[i], expected[i]);
    }
}

#[test]
fn diff_test_words_1() {
    let new = String::from("He is Andy");
    let old = String::from("She is Amy");
    let content = Content {
        new_text: new,
        old_text: old,
    };

    let actual = content.diff_by_words();
    let expected = vec!["-She", "+He", "is", "-Amy", "+Andy"];
    for i in 0..actual.len() {
        assert_eq!(actual[i], expected[i]);
    }
}

#[test]
fn diff_test_words_2() {
    let new = String::from("He is Andy");
    let old = String::from("He is");
    let content = Content {
        new_text: new,
        old_text: old,
    };

    let actual = content.diff_by_words();
    let expected = vec!["He", "is", "+Andy"];
    for i in 0..actual.len() {
        assert_eq!(actual[i], expected[i]);
    }
}

#[test]
fn diff_test_words_3() {
    let new = String::from("is Andy");
    let old = String::from("He is Andy");
    let content = Content {
        new_text: new,
        old_text: old,
    };

    let actual = content.diff_by_words();
    let expected = vec!["-He", "is", "Andy"];
    for i in 0..actual.len() {
        assert_eq!(actual[i], expected[i]);
    }
}

#[test]
fn diff_test_words_4() {
    let new = String::from("He is Andy She is Anne");
    let old = String::from("He is Andy I am Amy");
    let content = Content {
        new_text: new,
        old_text: old,
    };

    let actual = content.diff_by_words();
    println!("actual: {:?}", actual);
    let expected = vec![
        "He", "is", "Andy", "-I", "-am", "-Amy", "+She", "+is", "+Anne",
    ];
    for i in 0..actual.len() {
        assert_eq!(actual[i], expected[i]);
    }
}

#[test]
fn diff_test_words_5() {
    let new = String::from("He is Andy I am Amyyy She is Anne");
    let old = String::from("He is Andy I am Amy");
    let content = Content {
        new_text: new,
        old_text: old,
    };

    let actual = content.diff_by_words();
    let expected = vec![
        "He", "is", "Andy", "I", "am", "-Amy", "+Amyyy", "+She", "+is", "+Anne",
    ];
    for i in 0..actual.len() {
        assert_eq!(actual[i], expected[i]);
    }
}

#[test]
fn chars_scenarios_give_the_whole_script() {
    let content = Content {
        new_text: String::from("abcd"),
        old_text: String::from("abc"),
    };
    assert_eq!(content.diff_by_chars(), vec!["a", "b", "c", "+d"]);

    let content = Content {
        new_text: String::from("abecd"),
        old_text: String::from("zaabck"),
    };
    assert_eq!(
        content.diff_by_chars(),
        vec!["-z", "-a", "a", "b", "+e", "c", "-k", "+d"]
    );
}

#[test]
fn words_scenarios_give_the_whole_script() {
    let content = Content {
        new_text: String::from("He is Andy"),
        old_text: String::from("She is Amy"),
    };
    assert_eq!(
        content.diff_by_words(),
        vec!["-She", "+He", "is", "-Amy", "+Andy"]
    );

    let content = Content {
        new_text: String::from("is Andy"),
        old_text: String::from("He is Andy"),
    };
    assert_eq!(content.diff_by_words(), vec!["-He", "is", "Andy"]);
}

#[test]
fn both_texts_empty() {
    let content = Content {
        new_text: String::new(),
        old_text: String::new(),
    };
    assert_eq!(content.diff_by_chars(), Vec::<String>::new());
    // An empty text still has one word, the empty one, and it is kept.
    assert_eq!(content.diff_by_words(), vec![""]);
}

#[test]
fn compute_signs_each_line() {
    let old = vec![String::from("x"), String::from("y")];
    let new = vec![String::from("y"), String::from("z")];
    assert_eq!(Content::compute(&old, &new), vec!["-x", "y", "+z"]);
}

#[test]
fn chars_outside_ascii_are_single_tokens() {
    let content = Content {
        new_text: String::from("añb"),
        old_text: String::from("ab"),
    };
    assert_eq!(content.diff_by_chars(), vec!["a", "+ñ", "b"]);
}
