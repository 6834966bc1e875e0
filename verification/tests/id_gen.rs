use myrust::util::id_gen::{gen_id, Generator};
use std::collections::HashSet;

fn generator() -> Generator {
    match Generator::new() {
        Ok(g) => g,
        Err(_) => Generator::from_node(0x0000_ABCD_EF01),
    }
}

#[test]
fn test_gen_id() {
    let mut g = generator();
    let id = gen_id(&mut g);
    assert!(id > 0);
}

#[test]
fn sequential_ids_distinct() {
    let mut g = generator();
    let mut seen = HashSet::new();
    for _ in 0..1000 {
        let id = gen_id(&mut g);
        assert!(id > 0);
        assert!(seen.insert(id));
    }
}

#[test]
fn node_address_in_low_bits() {
    let mut g = Generator::from_node(0x1234_5678_9ABC);
    let id = gen_id(&mut g);
    assert_eq!((id & 0xFFFF_FFFF_FFFF) as u64, 0x1234_5678_9ABC);
}
