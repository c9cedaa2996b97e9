use lib::engine::jit_settings_for_profile;

#[test]
fn default_profile_allocates_two_registers_of_each_file() {
    let settings = jit_settings_for_profile(None);
    assert!(settings.register_allocate);
    assert_eq!(2, settings.register_allocation.num_int_registers);
    assert_eq!(2, settings.register_allocation.num_float_registers);

    let unknown = jit_settings_for_profile(Some("7"));
    assert!(unknown.register_allocate);
    assert_eq!(2, unknown.register_allocation.num_int_registers);
}

#[test]
fn test_profiles_select_settings() {
    let no_allocation = jit_settings_for_profile(Some("2"));
    assert!(!no_allocation.register_allocate);
    assert_eq!(0, no_allocation.register_allocation.num_int_registers);

    let spill_all = jit_settings_for_profile(Some("3"));
    assert!(spill_all.register_allocate);
    assert_eq!(0, spill_all.register_allocation.num_float_registers);

    let one = jit_settings_for_profile(Some("4"));
    assert_eq!(1, one.register_allocation.num_int_registers);
    assert_eq!(1, one.register_allocation.num_float_registers);

    let three = jit_settings_for_profile(Some("5"));
    assert_eq!(3, three.register_allocation.num_int_registers);
    assert_eq!(3, three.register_allocation.num_float_registers);
}
