use hazard_analyzer::firmware::get_hazards;
use hazard_analyzer::hazards::{hazards_from_text, hazards_of_groups, sets_difference, HazardSet};

fn set(names: &[&str]) -> HazardSet {
    let names: Vec<String> = names.iter().map(|n| n.to_string()).collect();
    HazardSet::from_names(&names)
}

fn names(set: &HazardSet) -> Vec<String> {
    set.to_vec()
}

#[test]
fn empty_set() {
    let s = HazardSet::new();
    assert_eq!(s.len(), 0);
    assert!(s.is_empty());
    assert!(!s.contains(&"FireHazard".to_string()));
    assert_eq!(names(&s), Vec::<String>::new());
}

#[test]
fn insertion_keeps_first_occurrence() {
    let mut s = HazardSet::new();
    assert!(s.insert("FireHazard".to_string()));
    assert!(s.insert("PowerSurge".to_string()));
    assert!(!s.insert("FireHazard".to_string()));
    assert_eq!(s.len(), 2);
    assert!(!s.is_empty());
    assert_eq!(names(&s), vec!["FireHazard", "PowerSurge"]);
    assert_eq!(s.get(0), "FireHazard");
    assert_eq!(s.get(1), "PowerSurge");
    assert!(s.contains(&"PowerSurge".to_string()));
}

#[test]
fn names_are_case_sensitive() {
    let s = set(&["FireHazard", "firehazard", "FIREHAZARD", "FireHazard"]);
    assert_eq!(names(&s), vec!["FireHazard", "firehazard", "FIREHAZARD"]);
    assert!(!s.contains(&"fireHazard".to_string()));
}

#[test]
fn copy_of_a_set() {
    let s = set(&["A", "B"]);
    let t = s.cloned();
    assert_eq!(names(&t), vec!["A", "B"]);
    assert_eq!(names(&HazardSet::new().cloned()), Vec::<String>::new());
}

#[test]
fn hazards_named_in_a_constant() {
    let found = hazards_from_text(
        "const SECOND_ACTION: &[Hazard] = &[Hazard::FireHazard, Hazard::ElectricEnergyConsumption];",
    )
    .unwrap();
    assert_eq!(names(&found), vec!["FireHazard", "ElectricEnergyConsumption"]);
}

#[test]
fn hazards_named_twice_count_once() {
    let found = hazards_from_text("Hazard::A, Hazard::B,\nHazard::A Hazard::C Hazard::B").unwrap();
    assert_eq!(names(&found), vec!["A", "B", "C"]);
}

#[test]
fn text_without_hazards() {
    assert!(hazards_from_text("").unwrap().is_empty());
    assert!(hazards_from_text("DeviceAction::no_hazards(config, action)").unwrap().is_empty());
    // The type alone, or in another case, is no hazard.
    assert!(hazards_from_text("Hazard:: FireHazard, hazard::Fire, Hazard:Fire").unwrap().is_empty());
}

#[test]
fn hazard_is_the_word_after_the_prefix() {
    let found = hazards_from_text("Hazard::Fire_2nd.x Hazard::Power-Surge MyHazard::Odd").unwrap();
    assert_eq!(names(&found), vec!["Fire_2nd", "Power", "Odd"]);
}

#[test]
fn hazards_of_a_piece_of_code() {
    let found = get_hazards(
        "add_action(DeviceAction::with_hazards(toggle_config, toggle, &[Hazard::FireHazard, Hazard::PowerSurge]))",
    )
    .unwrap();
    assert_eq!(names(&found), vec!["FireHazard", "PowerSurge"]);
    assert!(get_hazards("toggle").unwrap().is_empty());
}

#[test]
fn difference_of_two_sets() {
    let first = set(&["Fire", "Power", "Smoke"]);
    let second = set(&["Power", "Flood"]);
    assert_eq!(names(&sets_difference(&first, &second)), vec!["Fire", "Smoke"]);
    assert_eq!(names(&sets_difference(&second, &first)), vec!["Flood"]);
}

#[test]
fn difference_edge_cases() {
    let some = set(&["Fire", "Power"]);
    let none = HazardSet::new();
    assert_eq!(names(&sets_difference(&some, &none)), vec!["Fire", "Power"]);
    assert!(sets_difference(&none, &some).is_empty());
    assert!(sets_difference(&some, &some).is_empty());
    assert!(sets_difference(&none, &none).is_empty());
    // The order of the second set does not matter.
    assert!(sets_difference(&some, &set(&["Power", "Fire"])).is_empty());
}

#[test]
fn difference_is_set_difference_on_values() {
    let universe = ["A", "B", "C", "D"];
    for mask_a in 0..16u32 {
        for mask_b in 0..16u32 {
            let a: Vec<&str> =
                (0..4).filter(|i| mask_a & (1 << i) != 0).map(|i| universe[i]).collect();
            let b: Vec<&str> =
                (0..4).filter(|i| mask_b & (1 << i) != 0).map(|i| universe[i]).collect();
            let rest = names(&sets_difference(&set(&a), &set(&b)));
            let expected: Vec<String> =
                a.iter().filter(|x| !b.contains(x)).map(|x| x.to_string()).collect();
            assert_eq!(rest, expected);
        }
    }
}

#[test]
fn hazards_among_captured_names() {
    let found = vec![
        Some("Fire".to_string()),
        None,
        Some("Power".to_string()),
        Some("Fire".to_string()),
        None,
        Some(String::new()),
    ];
    assert_eq!(names(&hazards_of_groups(&found)), vec!["Fire", "Power", ""]);
    assert!(hazards_of_groups(&Vec::new()).is_empty());
    assert!(hazards_of_groups(&vec![None, None]).is_empty());
}
