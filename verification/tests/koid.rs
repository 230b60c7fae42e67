use kernel::kobject::koid::{Koid, ADDR_MASK};

#[test]
fn from_parts_preserves_tag_and_low_address_bits() {
    let k = Koid::from_parts(3, 0xDEAD_BEEF);
    assert_eq!(k.type_tag(), 3);
    assert_eq!(k.raw() & ADDR_MASK, 0xDEAD_BEEF);
}

#[test]
fn distinct_addresses_yield_distinct_koids() {
    let a = Koid::from_parts(1, 0x1000);
    let b = Koid::from_parts(1, 0x2000);
    assert_ne!(a, b);
}

#[test]
fn same_address_distinct_tags_yield_distinct_koids() {
    let proc_koid = Koid::from_parts(2, 0x4000);
    let thread_koid = Koid::from_parts(3, 0x4000);
    assert_ne!(proc_koid, thread_koid);
}

#[test]
fn address_is_truncated_to_56_bits() {
    let k = Koid::from_parts(7, u64::MAX);
    assert_eq!(k.type_tag(), 7);
    assert_eq!(k.raw() & ADDR_MASK, ADDR_MASK);
}

#[test]
fn koid_raw_places_tag_in_top_byte() {
    let k = Koid::from_parts(5, 0x1234);
    assert_eq!(k.raw(), (5u64 << 56) | 0x1234);
    assert_eq!(k.erase(), k);
}
