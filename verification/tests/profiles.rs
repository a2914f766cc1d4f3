use verdure::{Profile, ProfileManager};

#[test]
fn test_profile_creation() {
    let props = vec![("key1".to_string(), "value1".to_string())];

    let profile = Profile::new("test", props);
    assert_eq!(profile.name(), "test");
    assert!(!profile.is_active());
    assert_eq!(profile.get_property("key1"), Some("value1"));
    assert_eq!(profile.get_property("missing"), None);
}

#[test]
fn test_profile_active_status() {
    let mut profile = Profile::new("test", Vec::new());
    assert!(!profile.is_active());

    profile.set_active(true);
    assert!(profile.is_active());

    profile.set_active(false);
    assert!(!profile.is_active());
}

#[test]
fn test_profile_property_management() {
    let mut profile = Profile::new("test", Vec::new());

    profile.set_property("new_key", "new_value");
    assert_eq!(profile.get_property("new_key"), Some("new_value"));

    profile.set_property("new_key", "updated_value");
    assert_eq!(profile.get_property("new_key"), Some("updated_value"));
}

#[test]
fn test_profile_manager_creation() {
    let manager = ProfileManager::new();
    assert!(manager.active_profiles().is_empty());
    assert!(manager.profiles().is_empty());
}

#[test]
fn test_profile_manager_add_profile() {
    let mut manager = ProfileManager::new();
    let profile = Profile::new("dev", Vec::new());

    manager.add_profile(profile).unwrap();
    assert!(manager.get_profile("dev").is_some());
}

#[test]
fn test_profile_manager_duplicate_profile() {
    let mut manager = ProfileManager::new();
    let profile1 = Profile::new("dev", Vec::new());
    let profile2 = Profile::new("dev", Vec::new());

    manager.add_profile(profile1).unwrap();
    let result = manager.add_profile(profile2);
    assert!(result.is_err());
}

#[test]
fn test_profile_activation() {
    let mut manager = ProfileManager::new();
    let profile = Profile::new("prod", Vec::new());

    manager.add_profile(profile).unwrap();
    manager.activate_profile("prod").unwrap();

    assert_eq!(manager.active_profiles().len(), 1);
    assert_eq!(manager.active_profiles()[0], "prod");
    assert!(manager.get_profile("prod").unwrap().is_active());
}

#[test]
fn test_profile_activation_nonexistent() {
    let mut manager = ProfileManager::new();
    let result = manager.activate_profile("nonexistent");
    assert!(result.is_err());
}

#[test]
fn test_profile_deactivation() {
    let mut manager = ProfileManager::new();
    let profile = Profile::new("test", Vec::new());

    manager.add_profile(profile).unwrap();
    manager.activate_profile("test").unwrap();
    assert!(manager.get_profile("test").unwrap().is_active());

    manager.deactivate_profile("test");
    assert!(!manager.get_profile("test").unwrap().is_active());
    assert!(manager.active_profiles().is_empty());
}

#[test]
fn test_property_resolution_precedence() {
    let mut manager = ProfileManager::new();

    let props1 = vec![
        ("app.name".to_string(), "App1".to_string()),
        ("app.port".to_string(), "8080".to_string()),
    ];
    let profile1 = Profile::new("profile1", props1);

    let props2 = vec![
        ("app.name".to_string(), "App2".to_string()),
        ("app.version".to_string(), "2.0".to_string()),
    ];
    let profile2 = Profile::new("profile2", props2);

    manager.add_profile(profile1).unwrap();
    manager.add_profile(profile2).unwrap();

    manager.activate_profile("profile1").unwrap();
    manager.activate_profile("profile2").unwrap();

    // profile2 was activated last, so it takes precedence
    assert_eq!(manager.get_property("app.name"), Some("App2"));
    assert_eq!(manager.get_property("app.port"), Some("8080"));
    assert_eq!(manager.get_property("app.version"), Some("2.0"));
    assert_eq!(manager.get_property("missing"), None);
}

#[test]
fn test_multiple_active_profiles() {
    let mut manager = ProfileManager::new();

    let profile1 = Profile::new("dev", Vec::new());
    let profile2 = Profile::new("local", Vec::new());

    manager.add_profile(profile1).unwrap();
    manager.add_profile(profile2).unwrap();

    manager.activate_profile("dev").unwrap();
    manager.activate_profile("local").unwrap();

    assert_eq!(manager.active_profiles().len(), 2);
    assert_eq!(manager.active_profiles()[0], "dev");
    assert_eq!(manager.active_profiles()[1], "local");
}

#[test]
fn test_profile_deactivation_reverts_to_earlier() {
    let mut manager = ProfileManager::new();

    let profile1 = Profile::new("p1", vec![("app.name".to_string(), "First".to_string())]);
    let profile2 = Profile::new("p2", vec![("app.name".to_string(), "Second".to_string())]);

    manager.add_profile(profile1).unwrap();
    manager.add_profile(profile2).unwrap();
    manager.activate_profile("p1").unwrap();
    manager.activate_profile("p2").unwrap();

    assert_eq!(manager.get_property("app.name"), Some("Second"));

    manager.deactivate_profile("p2");
    assert_eq!(manager.get_property("app.name"), Some("First"));
}

#[test]
fn test_profile_properties_count() {
    let mut manager = ProfileManager::new();
    let props = vec![
        ("a".to_string(), "1".to_string()),
        ("b".to_string(), "2".to_string()),
    ];
    manager.add_profile(Profile::new("dev", props)).unwrap();

    assert_eq!(manager.get_profile_properties_count("dev"), 2);
    assert_eq!(manager.get_profile_properties_count("missing"), 0);
}
