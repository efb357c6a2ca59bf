use lock_timeline::error::LockError;
use lock_timeline::history::{
    get_commits_for_file, is_qualifying, library_timeline, record_outcome, CommitRecord,
};
use lock_timeline::sampler::{Sample, SampleError};
use lock_timeline::timeline::TimelineEntry;

fn composer(version: &str) -> Option<Vec<u8>> {
    Some(format!(r#"{{"packages":[{{"name":"acme/foo","version":"{version}"}}]}}"#).into_bytes())
}

fn commit(first_parent_changes: Option<usize>, blob: Option<Vec<u8>>, timestamp: i64) -> CommitRecord {
    CommitRecord { first_parent_changes, blob, timestamp }
}

fn entry(version: Option<&str>, timestamp: i64) -> TimelineEntry {
    TimelineEntry { version: version.map(|v| v.to_string()), timestamp }
}

#[test]
fn a_commit_without_a_parent_qualifies() {
    assert!(is_qualifying(None));
}

#[test]
fn a_commit_qualifies_by_a_change_against_its_first_parent() {
    assert!(!is_qualifying(Some(0)));
    assert!(is_qualifying(Some(1)));
    assert!(is_qualifying(Some(2)));
    assert!(is_qualifying(Some(usize::MAX)));
}

#[test]
fn the_single_commit_of_a_new_repository_is_kept() {
    assert_eq!(get_commits_for_file(&vec![None]), vec![0]);
    let history = vec![commit(None, composer("1.0.0"), 10)];
    assert_eq!(
        library_timeline(&history, "composer.lock", "acme/foo"),
        vec![entry(Some("1.0.0"), 10)]
    );
}

#[test]
fn a_commit_that_left_the_file_alone_is_never_kept() {
    assert_eq!(get_commits_for_file(&vec![Some(0)]), Vec::<usize>::new());
    assert_eq!(get_commits_for_file(&vec![Some(0), Some(0), Some(0)]), Vec::<usize>::new());
    assert_eq!(get_commits_for_file(&vec![Some(1), Some(0), None]), vec![0, 2]);
}

#[test]
fn the_filter_keeps_the_order_of_the_walk() {
    assert_eq!(get_commits_for_file(&vec![]), Vec::<usize>::new());
    let walk = vec![Some(1), Some(0), Some(3), None, Some(0), Some(1), None];
    assert_eq!(get_commits_for_file(&walk), vec![0, 2, 3, 5, 6]);
}

#[test]
fn a_commit_that_left_the_file_alone_is_not_sampled() {
    // The middle commit carries another version in its blob, yet it did not
    // touch the file against its first parent: it must not show.
    let history = vec![
        commit(Some(1), composer("2.0.0"), 30),
        commit(Some(0), composer("9.9.9"), 20),
        commit(None, composer("1.0.0"), 10),
    ];
    assert_eq!(
        library_timeline(&history, "composer.lock", "acme/foo"),
        vec![entry(Some("1.0.0"), 10), entry(Some("2.0.0"), 30)]
    );
}

#[test]
fn three_commits_with_two_versions_give_two_entries() {
    let (t1, t2, t3) = (1_000, 2_000, 3_000);
    let history = vec![
        commit(Some(1), composer("2.0.0"), t3),
        commit(Some(1), composer("1.0.0"), t2),
        commit(None, composer("1.0.0"), t1),
    ];
    assert_eq!(
        library_timeline(&history, "composer.lock", "acme/foo"),
        vec![entry(Some("1.0.0"), t1), entry(Some("2.0.0"), t3)]
    );
}

#[test]
fn a_malformed_revision_is_dropped_and_the_rest_stands() {
    let sound = vec![
        commit(Some(1), composer("2.0.0"), 40),
        commit(Some(1), composer("1.0.0"), 20),
        commit(None, composer("1.0.0"), 10),
    ];
    let with_a_bad_one = vec![
        commit(Some(1), composer("2.0.0"), 40),
        commit(Some(1), Some(b"{\"packages\":[{\"name\":".to_vec()), 30),
        commit(Some(1), composer("1.0.0"), 20),
        commit(None, composer("1.0.0"), 10),
    ];
    let expected = vec![entry(Some("1.0.0"), 10), entry(Some("2.0.0"), 40)];
    assert_eq!(library_timeline(&sound, "composer.lock", "acme/foo"), expected);
    assert_eq!(library_timeline(&with_a_bad_one, "composer.lock", "acme/foo"), expected);
}

#[test]
fn every_kind_of_failure_is_dropped() {
    let history = vec![
        commit(Some(1), composer("3.0.0"), 60),
        commit(Some(1), None, 50),
        commit(Some(1), Some(vec![0xff, 0xfe]), 40),
        commit(Some(1), Some(b"{}".to_vec()), 30),
        commit(Some(1), Some(b"not json".to_vec()), 20),
        commit(None, composer("1.0.0"), 10),
    ];
    assert_eq!(
        library_timeline(&history, "composer.lock", "acme/foo"),
        vec![entry(Some("1.0.0"), 10), entry(Some("3.0.0"), 60)]
    );
}

#[test]
fn a_dropped_revision_does_not_split_a_run() {
    let history = vec![
        commit(Some(1), composer("1.0.0"), 30),
        commit(Some(1), Some(b"{".to_vec()), 20),
        commit(None, composer("1.0.0"), 10),
    ];
    assert_eq!(
        library_timeline(&history, "composer.lock", "acme/foo"),
        vec![entry(Some("1.0.0"), 10)]
    );
}

#[test]
fn a_library_that_comes_and_goes_shows_in_the_timeline() {
    let history = vec![
        commit(Some(1), Some(br#"{"packages":[]}"#.to_vec()), 40),
        commit(Some(2), composer("1.1.0"), 30),
        commit(Some(1), composer("1.0.0"), 20),
        commit(None, Some(br#"{"packages":[{"name":"acme/bar","version":"0.1.0"}]}"#.to_vec()), 10),
    ];
    assert_eq!(
        library_timeline(&history, "composer.lock", "acme/foo"),
        vec![
            entry(None, 10),
            entry(Some("1.0.0"), 20),
            entry(Some("1.1.0"), 30),
            entry(None, 40),
        ]
    );
}

#[test]
fn a_file_name_of_no_format_gives_an_empty_timeline() {
    let history = vec![commit(Some(1), composer("2.0.0"), 20), commit(None, composer("1.0.0"), 10)];
    assert_eq!(library_timeline(&history, "yarn.lock", "acme/foo"), vec![]);
    assert_eq!(library_timeline(&history, "", "acme/foo"), vec![]);
}

#[test]
fn an_empty_history_gives_an_empty_timeline() {
    assert_eq!(library_timeline(&vec![], "composer.lock", "acme/foo"), vec![]);
    let untouched = vec![commit(Some(0), composer("1.0.0"), 10)];
    assert_eq!(library_timeline(&untouched, "composer.lock", "acme/foo"), vec![]);
}

#[test]
fn the_other_formats_run_through_the_same_pipeline() {
    let cargo = |v: &str| Some(format!("[[package]]\nname = \"serde\"\nversion = \"{v}\"\n").into_bytes());
    let history = vec![
        commit(Some(1), cargo("1.0.1"), 30),
        commit(Some(1), Some(b"[[package".to_vec()), 20),
        commit(None, cargo("1.0.0"), 10),
    ];
    assert_eq!(
        library_timeline(&history, "Cargo.lock", "serde"),
        vec![entry(Some("1.0.0"), 10), entry(Some("1.0.1"), 30)]
    );
    let npm = |v: &str| Some(format!(r#"{{"packages":{{"node_modules/acme-foo":{{"version":"{v}"}}}}}}"#).into_bytes());
    let history = vec![
        commit(Some(1), npm("3.1.0"), 30),
        commit(Some(1), npm("3.1.0"), 20),
        commit(None, Some(br#"{"packages":{}}"#.to_vec()), 10),
    ];
    assert_eq!(
        library_timeline(&history, "package-lock.json", "acme-foo"),
        vec![entry(None, 10), entry(Some("3.1.0"), 20)]
    );
}

#[test]
fn an_outcome_is_recorded_only_where_it_is_a_sample() {
    let mut samples = vec![Sample { version: None, timestamp: 1 }];
    record_outcome(&mut samples, Err(SampleError::NoBlob));
    record_outcome(&mut samples, Err(SampleError::NotText));
    record_outcome(&mut samples, Err(SampleError::UnknownFormat));
    record_outcome(&mut samples, Err(SampleError::Lock(LockError::Syntax)));
    record_outcome(&mut samples, Err(SampleError::Lock(LockError::Shape)));
    assert_eq!(samples, vec![Sample { version: None, timestamp: 1 }]);
    record_outcome(&mut samples, Ok(Sample { version: Some("1".to_string()), timestamp: 2 }));
    record_outcome(&mut samples, Err(SampleError::NoBlob));
    record_outcome(&mut samples, Ok(Sample { version: None, timestamp: 3 }));
    assert_eq!(
        samples,
        vec![
            Sample { version: None, timestamp: 1 },
            Sample { version: Some("1".to_string()), timestamp: 2 },
            Sample { version: None, timestamp: 3 },
        ]
    );
}
