use cocos_engine::utils::id_generator::{IDGenerator, NON_UUID_MARK};

#[test]
fn test_id_generator_basic() {
    let mut gen = IDGenerator::new("test");
    let id1 = gen.get_new_id();
    let id2 = gen.get_new_id();
    assert!(id1.starts_with("test."));
    assert!(id2.starts_with("test."));
    assert_ne!(id1, id2);
}

#[test]
fn test_id_generator_sequential() {
    let mut gen = IDGenerator::new("node");
    let ids: Vec<String> = (0..10).map(|_| gen.get_new_id()).collect();
    for i in 1..ids.len() {
        let prev_num: u32 = ids[i - 1].split('.').last().unwrap().parse().unwrap();
        let curr_num: u32 = ids[i].split('.').last().unwrap().parse().unwrap();
        assert_eq!(curr_num, prev_num + 1);
    }
}

#[test]
fn test_non_uuid_mark() {
    assert_eq!(NON_UUID_MARK, ".");
}

#[test]
fn test_id_generator_first_number_in_range() {
    let mut gen = IDGenerator::new("g");
    let id = gen.get_new_id();
    let n: u32 = id.strip_prefix("g.").unwrap().parse().unwrap();
    assert!((1..=999).contains(&n));
    assert_eq!(id, format!("g.{}", n));
}
