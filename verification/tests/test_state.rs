use flood::state::{default_state_filename, state_filename};

#[test]
fn state_file_names() {
    assert_eq!(state_filename("20240101-120000"), "flood-state-20240101-120000.json");
    let name = default_state_filename();
    assert!(name.starts_with("flood-state-"));
    assert!(name.ends_with(".json"));
    assert_eq!(name.len(), "flood-state-".len() + 15 + ".json".len());
}

#[test]
fn default_name_carries_a_local_time_stamp() {
    let name = default_state_filename();
    let stamp = &name["flood-state-".len()..name.len() - ".json".len()];
    let b: Vec<char> = stamp.chars().collect();
    assert_eq!(b.len(), 15);
    assert!(b[..8].iter().all(|c| c.is_ascii_digit()));
    assert_eq!(b[8], '-');
    assert!(b[9..].iter().all(|c| c.is_ascii_digit()));
    let two = |i: usize| (b[i] as u32 - 48) * 10 + (b[i + 1] as u32 - 48);
    assert!((1..=12).contains(&two(4)));
    assert!((1..=31).contains(&two(6)));
    assert!(two(9) <= 23 && two(11) <= 59 && two(13) <= 60);
}
