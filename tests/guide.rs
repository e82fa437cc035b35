use libtrowel::ColorGuide;

fn rows(pairs: &[(&str, i32)]) -> Vec<(String, i32)> {
    pairs.iter().map(|(n, i)| (n.to_string(), *i)).collect()
}

#[test]
fn empty_guide() {
    let g = ColorGuide::new();
    assert_eq!(g.id_count(), 0);
    assert_eq!(g.name_count(), 0);
    assert_eq!(g.id_of(&"White".to_string()), None);
    assert_eq!(g.name_of(1), None);
}

#[test]
fn unique_rows_invert_each_other() {
    let pairs = rows(&[("White", 1), ("Black", 11), ("Red", 5), ("Blue", 7)]);
    let g = ColorGuide::from_rows(&pairs);
    assert_eq!(g.id_count(), 4);
    assert_eq!(g.name_count(), 4);
    for (name, id) in &pairs {
        assert_eq!(g.id_of(name), Some(*id));
        assert_eq!(g.name_of(*id), Some(name.clone()));
    }
}

#[test]
fn repeated_name_last_row_wins() {
    let g = ColorGuide::from_rows(&rows(&[("A", 1), ("A", 2)]));
    assert_eq!(g.id_of(&"A".to_string()), Some(2));
    assert_eq!(g.name_of(1), None);
    assert_eq!(g.name_of(2), Some("A".to_string()));
    assert_eq!(g.id_count(), 1);
    assert_eq!(g.name_count(), 1);
}

#[test]
fn repeated_id_last_row_wins() {
    let g = ColorGuide::from_rows(&rows(&[("A", 1), ("B", 1)]));
    assert_eq!(g.name_of(1), Some("B".to_string()));
    assert_eq!(g.id_of(&"A".to_string()), None);
    assert_eq!(g.id_of(&"B".to_string()), Some(1));
    assert_eq!(g.id_count(), 1);
    assert_eq!(g.name_count(), 1);
}

#[test]
fn crossing_rows_stay_inverse() {
    let g = ColorGuide::from_rows(&rows(&[("A", 1), ("B", 2), ("A", 2)]));
    assert_eq!(g.id_of(&"A".to_string()), Some(2));
    assert_eq!(g.id_of(&"B".to_string()), None);
    assert_eq!(g.name_of(1), None);
    assert_eq!(g.name_of(2), Some("A".to_string()));
    assert_eq!(g.id_count(), 1);
    assert_eq!(g.name_count(), 1);
}

#[test]
fn insert_overwrites() {
    let mut g = ColorGuide::new();
    g.insert("Tan".to_string(), 2);
    g.insert("Tan".to_string(), 3);
    assert_eq!(g.id_of(&"Tan".to_string()), Some(3));
    assert_eq!(g.name_of(2), None);
    assert_eq!(g.name_count(), 1);
    assert_eq!(g.id_count(), 1);
}
