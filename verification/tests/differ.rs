use envhist::differ::{diff_envs, format_diff, format_diff_colored, format_diff_labelled};
use envhist::{Env, EnvDiff};

#[test]
fn test_diff_envs() {
    let mut old = Env::new();
    old.insert("VAR1".to_string(), "value1".to_string());
    old.insert("VAR2".to_string(), "value2".to_string());

    let mut new = Env::new();
    new.insert("VAR1".to_string(), "value1".to_string()); // unchanged
    new.insert("VAR2".to_string(), "value2_modified".to_string()); // changed
    new.insert("VAR3".to_string(), "value3".to_string()); // added

    let diffs = diff_envs(&old, &new);

    assert_eq!(diffs.len(), 3); // 1 unchanged, 1 changed, 1 added
}

fn env_of(pairs: &[(&str, &str)]) -> Env {
    let mut env = Env::new();
    for (k, v) in pairs {
        env.insert(k.to_string(), v.to_string());
    }
    env
}

fn added(key: &str, value: &str) -> EnvDiff {
    EnvDiff::Added { key: key.to_string(), value: value.to_string() }
}

fn removed(key: &str, old_value: &str) -> EnvDiff {
    EnvDiff::Removed { key: key.to_string(), old_value: old_value.to_string() }
}

fn changed(key: &str, old_value: &str, new_value: &str) -> EnvDiff {
    EnvDiff::Changed { key: key.to_string(), old_value: old_value.to_string(), new_value: new_value.to_string() }
}

fn unchanged(key: &str, value: &str) -> EnvDiff {
    EnvDiff::Unchanged { key: key.to_string(), value: value.to_string() }
}

#[test]
fn diff_envs_gives_the_findings_in_order_of_the_names() {
    let old = env_of(&[("VAR1", "value1"), ("VAR2", "value2")]);
    let new = env_of(&[("VAR1", "value1"), ("VAR2", "value2_modified"), ("VAR3", "value3")]);
    assert_eq!(
        diff_envs(&old, &new),
        vec![
            unchanged("VAR1", "value1"),
            changed("VAR2", "value2", "value2_modified"),
            added("VAR3", "value3"),
        ]
    );
}

#[test]
fn diff_of_equal_envs_is_all_unchanged() {
    let env = env_of(&[("B", "2"), ("A", "1")]);
    assert_eq!(diff_envs(&env, &env), vec![unchanged("A", "1"), unchanged("B", "2")]);
}

#[test]
fn diff_of_empty_envs_is_empty() {
    assert_eq!(diff_envs(&Env::new(), &Env::new()), vec![]);
}

#[test]
fn diff_against_empty_is_all_added_or_all_removed() {
    let env = env_of(&[("Z", "26"), ("A", "1"), ("M", "13")]);
    assert_eq!(diff_envs(&Env::new(), &env), vec![added("A", "1"), added("M", "13"), added("Z", "26")]);
    assert_eq!(diff_envs(&env, &Env::new()), vec![removed("A", "1"), removed("M", "13"), removed("Z", "26")]);
}

#[test]
fn diff_interleaves_both_sides() {
    let old = env_of(&[("a", "1"), ("c", "3"), ("e", "5"), ("g", "7")]);
    let new = env_of(&[("b", "2"), ("c", "3"), ("d", "4"), ("g", "8"), ("h", "9")]);
    assert_eq!(
        diff_envs(&old, &new),
        vec![
            removed("a", "1"),
            added("b", "2"),
            unchanged("c", "3"),
            added("d", "4"),
            removed("e", "5"),
            changed("g", "7", "8"),
            added("h", "9"),
        ]
    );
}

#[test]
fn format_diff_without_unchanged_ends_with_the_sums() {
    let diffs = vec![
        unchanged("VAR1", "value1"),
        changed("VAR2", "value2", "value2_modified"),
        added("VAR3", "value3"),
        removed("VAR4", "value4"),
    ];
    assert_eq!(
        format_diff(&diffs, false),
        "~ VAR2:\n  - value2\n  + value2_modified\n+ VAR3: value3\n- VAR4: value4\n\n1 changed, 1 added, 1 removed\n"
    );
}

#[test]
fn format_diff_with_unchanged_has_no_sums() {
    let diffs = vec![unchanged("VAR1", "value1"), added("VAR3", "value3")];
    assert_eq!(format_diff(&diffs, true), "  VAR1: value1\n+ VAR3: value3\n");
}

#[test]
fn format_diff_of_nothing() {
    assert_eq!(format_diff(&[], false), "\n0 changed, 0 added, 0 removed\n");
    assert_eq!(format_diff(&[], true), "");
}

#[test]
fn format_diff_counts_in_decimal() {
    let mut diffs = Vec::new();
    for i in 0..12 {
        diffs.push(added(&format!("K{:02}", i), "v"));
    }
    for i in 0..105 {
        diffs.push(removed(&format!("R{:03}", i), "v"));
    }
    let text = format_diff(&diffs, false);
    assert!(text.ends_with("\n0 changed, 12 added, 105 removed\n"));
    assert!(text.starts_with("+ K00: v\n+ K01: v\n"));
}

#[test]
fn format_diff_labelled_shows_labels_in_place_of_names() {
    let diffs = vec![added("A", "1"), removed("B", "2"), changed("C", "3", "4"), unchanged("D", "5")];
    let labels = vec!["<A>".to_string(), "<B>".to_string(), "<C>".to_string(), "<D>".to_string()];
    assert_eq!(
        format_diff_labelled(&diffs, &labels, true),
        "+ <A>: 1\n- <B>: 2\n~ <C>:\n  - 3\n  + 4\n  D: 5\n"
    );
    // where the labels run out, the names stand
    assert_eq!(
        format_diff_labelled(&diffs, &labels[..1].to_vec(), true),
        "+ <A>: 1\n- B: 2\n~ C:\n  - 3\n  + 4\n  D: 5\n"
    );
}

#[test]
fn format_diff_colored_without_colour_is_format_diff() {
    colored::control::set_override(false);
    let diffs = vec![added("A", "1"), removed("B", "2"), changed("C", "3", "4"), unchanged("D", "5")];
    assert_eq!(format_diff_colored(&diffs, false), format_diff(&diffs, false));
    assert_eq!(format_diff_colored(&diffs, true), format_diff(&diffs, true));
    colored::control::unset_override();
}

#[test]
fn env_diff_clone_is_equal() {
    for d in [added("A", "1"), removed("B", "2"), changed("C", "3", "4"), unchanged("D", "5")] {
        assert_eq!(d.clone(), d);
    }
}

fn mirrored(d: &EnvDiff) -> EnvDiff {
    match d {
        EnvDiff::Added { key, value } => removed(key, value),
        EnvDiff::Removed { key, old_value } => added(key, old_value),
        EnvDiff::Changed { key, old_value, new_value } => changed(key, new_value, old_value),
        EnvDiff::Unchanged { key, value } => unchanged(key, value),
    }
}

#[test]
fn the_diff_back_is_the_mirror_image_of_the_diff_forth() {
    let old = env_of(&[("a", "1"), ("c", "3"), ("e", "5"), ("g", "7")]);
    let new = env_of(&[("b", "2"), ("c", "3"), ("d", "4"), ("g", "8"), ("h", "9")]);
    let forth = diff_envs(&old, &new);
    let back = diff_envs(&new, &old);
    let mut expected = Vec::new();
    for d in &forth {
        expected.push(mirrored(d));
    }
    assert_eq!(back, expected);
}

#[test]
fn there_is_one_finding_for_each_name() {
    let old = env_of(&[("a", "1"), ("c", "3"), ("e", "5"), ("g", "7")]);
    let new = env_of(&[("b", "2"), ("c", "3"), ("d", "4"), ("g", "8"), ("h", "9")]);
    let mut names = Vec::new();
    for d in diff_envs(&old, &new) {
        names.push(match d {
            EnvDiff::Added { key, .. } => key,
            EnvDiff::Removed { key, .. } => key,
            EnvDiff::Changed { key, .. } => key,
            EnvDiff::Unchanged { key, .. } => key,
        });
    }
    assert_eq!(names, vec!["a", "b", "c", "d", "e", "g", "h"]);
}

#[test]
fn a_name_is_removed_only_where_the_new_environment_lacks_it() {
    let old = env_of(&[("KEPT", "1"), ("GONE", "2"), ("MOVED", "3")]);
    let new = env_of(&[("KEPT", "1"), ("MOVED", "4")]);
    assert_eq!(
        diff_envs(&old, &new),
        vec![removed("GONE", "2"), unchanged("KEPT", "1"), changed("MOVED", "3", "4")]
    );
}
