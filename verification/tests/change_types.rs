use modmeta::comparisons::ChangeType;

#[test]
fn change_type_order_tests() {
    let mut types = vec![ChangeType::Minor, ChangeType::Major, ChangeType::Patch];
    types.sort();

    assert_eq!(
        types,
        &[ChangeType::Patch, ChangeType::Minor, ChangeType::Major]
    );
}
