use prisma::materials::Materials;

#[test]
fn new_registry_is_empty() {
    let materials = Materials::new();
    assert_eq!(materials.len(), 0);
    assert_eq!(materials.get(0), None);
}

#[test]
fn materials_are_numbered_as_they_come() {
    let mut materials = Materials::new();
    assert_eq!(materials.add(40), Some(0));
    assert_eq!(materials.add(10), Some(1));
    assert_eq!(materials.add(30), Some(2));
    assert_eq!(materials.len(), 3);
    assert_eq!(materials.get(0), Some(40));
    assert_eq!(materials.get(1), Some(10));
    assert_eq!(materials.get(2), Some(30));
    assert_eq!(materials.get(3), None);
}

#[test]
fn adding_a_known_material_returns_its_index() {
    let mut materials = Materials::new();
    assert_eq!(materials.add(7), Some(0));
    assert_eq!(materials.add(9), Some(1));
    assert_eq!(materials.add(7), Some(0));
    assert_eq!(materials.add(9), Some(1));
    assert_eq!(materials.add(7), Some(0));
    assert_eq!(materials.len(), 2);
}

#[test]
fn indices_stay_when_more_materials_come() {
    let mut materials = Materials::new();
    let first = materials.add(u64::MAX);
    for key in 0u64..100 {
        materials.add(key);
    }
    assert_eq!(materials.add(u64::MAX), first);
    assert_eq!(materials.add(50), Some(51));
    assert_eq!(materials.len(), 101);
}
