use metricscat::agent::Metric;
use metricscat::ingest::{
    collect_tags, contains_name, distinct_names, find_id, junction_rows, metric_names,
    missing_names, resolve_ids,
};

fn metric(name: &str, tags: &[(&str, &str)]) -> Metric {
    Metric {
        name: name.to_string(),
        value_bits: 0,
        tags: tags.iter().map(|(k, v)| (k.to_string(), v.to_string())).collect(),
    }
}

fn table(rows: &[(i64, &str)]) -> Vec<(i64, String)> {
    rows.iter().map(|(id, n)| (*id, n.to_string())).collect()
}

fn names(list: &[&str]) -> Vec<String> {
    list.iter().map(|n| n.to_string()).collect()
}

#[test]
fn unseen_names_are_planned_once_each() {
    let wanted = names(&["cpu", "mem", "cpu", "disk", "mem"]);
    let known = table(&[(7, "mem")]);
    assert_eq!(missing_names(&wanted, &known), vec!["cpu", "disk"]);
}

#[test]
fn reingesting_the_same_names_plans_nothing() {
    let wanted = names(&["cpu", "mem", "cpu", "disk"]);
    let mut known = table(&[(7, "mem")]);
    let plan = missing_names(&wanted, &known);
    let mut next_id = 100;
    for name in plan {
        known.push((next_id, name));
        next_id += 1;
    }
    assert_eq!(known.len(), 3);
    assert_eq!(missing_names(&wanted, &known), Vec::<String>::new());
    assert_eq!(resolve_ids(&wanted, &known), Some(vec![100, 7, 100, 101]));
}

#[test]
fn empty_batch_plans_nothing() {
    assert_eq!(missing_names(&Vec::new(), &table(&[(1, "a")])), Vec::<String>::new());
}

#[test]
fn lookup_returns_first_matching_row() {
    let t = table(&[(1, "a"), (2, "b"), (3, "a")]);
    assert_eq!(find_id(&t, &"a".to_string()), Some(1));
    assert_eq!(find_id(&t, &"b".to_string()), Some(2));
    assert_eq!(find_id(&t, &"c".to_string()), None);
    assert!(contains_name(&names(&["x", "y"]), &"y".to_string()));
    assert!(!contains_name(&names(&["x", "y"]), &"z".to_string()));
}

#[test]
fn ids_follow_input_order_and_fail_on_unknown_names() {
    let t = table(&[(1, "a"), (2, "b")]);
    assert_eq!(resolve_ids(&names(&["b", "a", "b"]), &t), Some(vec![2, 1, 2]));
    assert_eq!(resolve_ids(&names(&["b", "zzz"]), &t), None);
    assert_eq!(resolve_ids(&Vec::new(), &t), Some(Vec::new()));
}

#[test]
fn names_and_tags_are_collected_in_order() {
    let batch = vec![
        metric("cpu", &[("host", "a"), ("env", "prod")]),
        metric("mem", &[]),
        metric("cpu", &[("host", "b")]),
    ];
    assert_eq!(metric_names(&batch), vec!["cpu", "mem", "cpu"]);
    let (keys, values) = collect_tags(&batch);
    assert_eq!(keys, vec!["host", "env", "host"]);
    assert_eq!(values, vec!["a", "prod", "b"]);
    assert_eq!(distinct_names(&keys), vec!["host", "env"]);
    assert_eq!(distinct_names(&values), vec!["a", "prod", "b"]);
    assert_eq!(distinct_names(&Vec::new()), Vec::<String>::new());
}

#[test]
fn one_junction_row_per_metric_and_tag() {
    let batch = vec![
        metric("cpu", &[("host", "a"), ("env", "prod")]),
        metric("mem", &[]),
        metric("cpu", &[("host", "b")]),
    ];
    let keys = table(&[(10, "host"), (11, "env")]);
    let values = table(&[(20, "a"), (21, "prod"), (22, "b")]);
    let rows = junction_rows(&batch, &vec![500, 501, 502], &keys, &values);
    assert_eq!(rows, Some(vec![(500, 10, 20), (500, 11, 21), (502, 10, 22)]));
}

#[test]
fn junction_rows_need_all_points_and_all_dimensions() {
    let batch = vec![metric("cpu", &[("host", "a")])];
    let keys = table(&[(10, "host")]);
    let values = table(&[(20, "a")]);
    assert_eq!(junction_rows(&batch, &Vec::new(), &keys, &values), None);
    assert_eq!(junction_rows(&batch, &vec![1, 2], &keys, &values), None);
    assert_eq!(junction_rows(&batch, &vec![1], &Vec::new(), &values), None);
    assert_eq!(junction_rows(&batch, &vec![1], &keys, &Vec::new()), None);
    assert_eq!(junction_rows(&Vec::new(), &Vec::new(), &keys, &values), Some(Vec::new()));
}
