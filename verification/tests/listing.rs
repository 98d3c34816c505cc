use envhist::listing::{latest_by_name, newest_first};
use envhist::session::Timestamp;
use envhist::storage::Snapshot;
use envhist::Env;

fn snapshot(name: &str, secs: i64, note: &str) -> Snapshot {
    Snapshot {
        name: name.to_string(),
        created_at: Timestamp::new(secs, 0),
        description: Some(note.to_string()),
        environment: Env::new(),
        tags: Vec::new(),
        session_id: None,
    }
}

fn names(list: &[Snapshot]) -> Vec<String> {
    let mut out = Vec::new();
    for s in list {
        out.push(format!("{}:{}", s.name, s.description.clone().unwrap_or_default()));
    }
    out
}

#[test]
fn latest_by_name_keeps_the_last_of_each_name_in_order_of_the_names() {
    let list = vec![
        snapshot("b", 1, "first"),
        snapshot("a", 2, "only"),
        snapshot("c", 3, "first"),
        snapshot("b", 4, "second"),
        snapshot("c", 0, "last"),
        snapshot("b", 9, "last"),
    ];
    assert_eq!(names(&latest_by_name(&list)), vec!["a:only", "b:last", "c:last"]);
    assert_eq!(latest_by_name(&[]), vec![]);
}

#[test]
fn latest_by_name_agrees_with_a_map() {
    let mut list = Vec::new();
    let mut map = std::collections::BTreeMap::new();
    let mut seed: u32 = 99;
    for n in 0..300 {
        seed = seed.wrapping_mul(1103515245).wrapping_add(12345);
        let snap = snapshot(&format!("n{}", (seed >> 16) % 40), n, &format!("{}", n));
        map.insert(snap.name.clone(), snap.clone());
        list.push(snap);
    }
    let expected: Vec<Snapshot> = map.into_values().collect();
    assert_eq!(latest_by_name(&list), expected);
}

#[test]
fn newest_first_is_a_stable_order() {
    let list = vec![
        snapshot("a", 5, ""),
        snapshot("b", 7, ""),
        snapshot("c", 5, ""),
        snapshot("d", 1, ""),
        snapshot("e", 7, ""),
        snapshot("f", 5, ""),
    ];
    assert_eq!(names(&newest_first(&list)), vec!["b:", "e:", "a:", "c:", "f:", "d:"]);
    let mut expected = list.clone();
    expected.sort_by(|x, y| y.created_at.secs.cmp(&x.created_at.secs));
    assert_eq!(newest_first(&list), expected);
    assert_eq!(newest_first(&[]), vec![]);
}

#[test]
fn newest_first_looks_at_the_nanoseconds_too() {
    let mut early = snapshot("early", 5, "");
    early.created_at = Timestamp::new(5, 1);
    let mut late = snapshot("late", 5, "");
    late.created_at = Timestamp::new(5, 2);
    assert_eq!(names(&newest_first(&[early.clone(), late.clone()])), vec!["late:", "early:"]);
    assert_eq!(names(&newest_first(&[late, early])), vec!["late:", "early:"]);
}
