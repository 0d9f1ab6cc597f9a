use tiny::utils::{insert_iter, is_nick_char, split_nicks, split_whitespace_indices};

fn collect_indices(s: &str) -> Vec<usize> {
    let mut it = split_whitespace_indices(s);
    let mut r = Vec::new();
    while let Some(i) = it.next() {
        r.push(i);
    }
    r
}

fn collect_nicks(s: &str) -> Vec<String> {
    let mut it = split_nicks(s);
    let mut r = Vec::new();
    while let Some(t) = it.next() {
        r.push(t);
    }
    r
}

#[test]
fn insert_iter_test() {
    let range1: Vec<i32> = (0..5).collect();
    let range2: Vec<i32> = (5..10).collect();
    let mut iter = insert_iter(range1, range2, 3);
    let mut out = Vec::new();
    while let Some(a) = iter.next() {
        out.push(a);
    }
    assert_eq!(out, vec![0, 1, 2, 5, 6, 7, 8, 9, 3, 4])
}

#[test]
fn insert_iter_past_end_yields_first_only() {
    let mut iter = insert_iter(vec![1, 2], vec![7, 8], 5);
    let mut out = Vec::new();
    while let Some(a) = iter.next() {
        out.push(a);
    }
    assert_eq!(out, vec![1, 2]);
    assert_eq!(iter.next(), None);
}

#[test]
fn insert_iter_at_end_appends() {
    let mut iter = insert_iter(vec![1, 2], vec![7], 2);
    let mut out = Vec::new();
    while let Some(a) = iter.next() {
        out.push(a);
    }
    assert_eq!(out, vec![1, 2, 7]);
}

#[test]
fn split_ws_idx() {
    let str = "x y z";
    let idxs: Vec<usize> = collect_indices(str);
    assert_eq!(idxs, vec![0, 2, 4]);

    let str = "       ";
    let idxs: Vec<usize> = collect_indices(str);
    let expected: Vec<usize> = vec![];
    assert_eq!(idxs, expected);

    let str = "  foo    bar  \n\r   baz     ";
    let idxs: Vec<usize> = collect_indices(str);
    assert_eq!(idxs, vec![2, 9, 19]);
}

#[test]
fn split_ws_idx_counts_bytes() {
    // "é" takes two bytes and the space one, so the second word starts at byte 3
    assert_eq!(collect_indices("é b"), vec![0, 3]);
}

#[test]
fn split_nicks_test() {
    let str = "a";
    let nicks = collect_nicks(str);
    assert_eq!(nicks, vec!["a"]);

    let str = "foo bar baz";
    let nicks = collect_nicks(str);
    assert_eq!(nicks, vec!["foo", " ", "bar", " ", "baz"]);

    let str = "";
    let nicks = collect_nicks(str);
    let expected: Vec<&str> = vec![];
    assert_eq!(nicks, expected);

    let str = "  foo  bar   baz  ";
    let nicks = collect_nicks(str);
    assert_eq!(nicks, vec!["  ", "foo", "  ", "bar", "   ", "baz", "  "]);
}

#[test]
fn split_nicks_joins_back() {
    let s = "hi, alice: [b]ob!";
    assert_eq!(collect_nicks(s).concat(), s);
}

#[test]
fn nick_chars() {
    for c in ['a', 'Z', '0', '-', '[', ']', '\\', '`', '^', '{', '}'] {
        assert!(is_nick_char(c));
    }
    for c in [' ', '@', '!', ':', 'é'] {
        assert!(!is_nick_char(c));
    }
}
