use tsm_language_server::matcher::suggest;

#[test]
fn test_suggest_excludes_non_matching() {
    let candidates = vec![String::from("dir_b_old"), String::from("zzz")];
    let r = suggest("dir_b", &candidates, 15);
    assert_eq!(1, r.len());
    assert_eq!("dir_b_old", r[0].name);
}

#[test]
fn test_suggest_scores_non_increasing() {
    let candidates = vec![
        String::from("dir_b_old"),
        String::from("d_i_r_b"),
        String::from("dir_b"),
        String::from("unrelated"),
    ];
    let r = suggest("dir_b", &candidates, 15);
    assert_eq!(3, r.len());
    for w in r.windows(2) {
        assert!(w[0].score >= w[1].score);
    }
    // The non-matching candidate is excluded; the matching ones all appear.
    let names: Vec<&str> = r.iter().map(|m| m.name.as_str()).collect();
    assert!(names.contains(&"dir_b"));
    assert!(names.contains(&"dir_b_old"));
    assert!(names.contains(&"d_i_r_b"));
}

#[test]
fn test_suggest_respects_limit() {
    let candidates = vec![
        String::from("dir_1"),
        String::from("dir_2"),
        String::from("dir_3"),
        String::from("dir_4"),
    ];
    let r = suggest("dir", &candidates, 2);
    assert_eq!(2, r.len());
    let all = suggest("dir", &candidates, 15);
    assert_eq!(4, all.len());
}

#[test]
fn test_suggest_empty_candidates() {
    let r = suggest("anything", &vec![], 15);
    assert_eq!(0, r.len());
}

#[test]
fn test_suggest_equal_scores_keep_candidate_order() {
    // Two identical candidates score identically; the earlier one stays first.
    let candidates = vec![String::from("dir_b"), String::from("dir_b")];
    let r = suggest("dir_b", &candidates, 15);
    assert_eq!(2, r.len());
    assert_eq!(r[0].score, r[1].score);
    assert_eq!("dir_b", r[0].name);
    assert_eq!("dir_b", r[1].name);
}
