use assimp_rs::memory::MemoryInfo;
use assimp_rs::texel::Texel;

#[test]
fn it_works() {
    assert_eq!(true, true);
}

#[test]
fn texel_keeps_layout_order() {
    let t = Texel::new(1, 2, 3, 4);
    assert_eq!(t.b, 1);
    assert_eq!(t.g, 2);
    assert_eq!(t.r, 3);
    assert_eq!(t.a, 4);
}

#[test]
fn memory_total_of_empty_snapshot_is_zero() {
    let m = MemoryInfo::new(0, 0, 0, 0, 0, 0, 0);
    assert_eq!(m.total(), 0);
}

#[test]
fn memory_total_sums_categories() {
    let m = MemoryInfo::new(1, 2, 3, 4, 5, 6, 7);
    assert_eq!(m.total(), 28);
    assert_eq!(m.lights, 7);
}

#[test]
fn memory_total_does_not_wrap() {
    let m = MemoryInfo::new(u32::MAX, u32::MAX, u32::MAX, u32::MAX, u32::MAX, u32::MAX, u32::MAX);
    assert_eq!(m.total(), 7 * (u32::MAX as u64));
}
