use pith::identity::{Identity, PrivilegeTier};

#[test]
fn test_tier_from_name() {
    assert_eq!(PrivilegeTier::from_name("001"), PrivilegeTier::Omni);
    assert_eq!(PrivilegeTier::from_name("042"), PrivilegeTier::Omni);
    assert_eq!(PrivilegeTier::from_name("099"), PrivilegeTier::Omni);
    assert_eq!(PrivilegeTier::from_name("100"), PrivilegeTier::Shadow);
    assert_eq!(PrivilegeTier::from_name("200"), PrivilegeTier::Superroot);
    assert_eq!(PrivilegeTier::from_name("300"), PrivilegeTier::Root);
    assert_eq!(PrivilegeTier::from_name("420"), PrivilegeTier::Admin);
    assert_eq!(PrivilegeTier::from_name("500"), PrivilegeTier::Permissioned);
    assert_eq!(PrivilegeTier::from_name("600"), PrivilegeTier::User);
    assert_eq!(PrivilegeTier::from_name("777"), PrivilegeTier::Shared);
    assert_eq!(PrivilegeTier::from_name("800"), PrivilegeTier::Guest);
    assert_eq!(PrivilegeTier::from_name("999"), PrivilegeTier::DigitalConsciousness);
}

#[test]
fn test_tier_from_id() {
    assert_eq!(PrivilegeTier::from_id(0), PrivilegeTier::Omni);
    assert_eq!(PrivilegeTier::from_id(1), PrivilegeTier::Shadow);
    assert_eq!(PrivilegeTier::from_id(42), PrivilegeTier::Admin);
    assert_eq!(PrivilegeTier::from_id(100), PrivilegeTier::Shadow);
    assert_eq!(PrivilegeTier::from_id(600), PrivilegeTier::User);
    assert_eq!(PrivilegeTier::from_id(777), PrivilegeTier::Shared);
    assert_eq!(PrivilegeTier::from_id(999), PrivilegeTier::DigitalConsciousness);
    assert_eq!(PrivilegeTier::from_id(1337), PrivilegeTier::Shadow);
    assert_eq!(PrivilegeTier::from_id(42000), PrivilegeTier::Admin);
}

#[test]
fn test_identity_from_name() {
    let id = Identity::from_name("001", 1);
    assert_eq!(id.id, 1);
    assert_eq!(id.name, "001");
    assert_eq!(id.tier, PrivilegeTier::Omni);

    let id = Identity::from_name("600", 600);
    assert_eq!(id.tier, PrivilegeTier::User);
}

#[test]
fn identity_new_names_the_number() {
    let id = Identity::new(42000);
    assert_eq!(id.name, "42000");
    assert_eq!(id.tier, PrivilegeTier::Admin);
    assert!(id.groups.is_empty());
    assert_eq!(Identity::new(0).name, "0");
}

#[test]
fn tier_from_name_falls_back_to_guest() {
    assert_eq!(PrivilegeTier::from_name("admin"), PrivilegeTier::Guest);
    assert_eq!(PrivilegeTier::from_name(""), PrivilegeTier::Guest);
    assert_eq!(PrivilegeTier::from_id(u64::MAX), PrivilegeTier::Shadow);
}

#[test]
fn tier_debug_names() {
    assert_eq!(PrivilegeTier::Omni.debug_name(), format!("{:?}", PrivilegeTier::Omni));
    assert_eq!(
        PrivilegeTier::DigitalConsciousness.debug_name(),
        format!("{:?}", PrivilegeTier::DigitalConsciousness)
    );
}

#[test]
fn tier_of_a_number_is_the_tier_of_its_decimal_form() {
    for n in [0u64, 7, 42, 100, 1337, 42000, 999, u64::MAX] {
        assert_eq!(PrivilegeTier::from_id(n), PrivilegeTier::from_name(&n.to_string()));
    }
    assert_eq!(PrivilegeTier::from_id(42), PrivilegeTier::Admin);
    assert_eq!(PrivilegeTier::from_id(1337), PrivilegeTier::Shadow);
}
