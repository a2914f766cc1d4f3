use verdure::{ConfigManager, ConfigSource, ConfigTree, ConfigValue, Profile};
use verdure::flatten::flatten_tree;
use verdure::config::env_var_name;
use verdure::properties::parse_properties;

fn props(entries: &[(&str, &str)]) -> Vec<(String, String)> {
    entries
        .iter()
        .map(|(k, v)| (k.to_string(), v.to_string()))
        .collect()
}

#[test]
fn test_config_value_conversions() {
    // String conversion
    let value = ConfigValue::String("hello".to_string());
    assert_eq!(value.as_string(), Some("hello".to_string()));

    // Integer conversion
    let value = ConfigValue::Integer(42);
    assert_eq!(value.as_integer(), Some(42));
    assert_eq!(value.as_string(), Some("42".to_string()));

    // Boolean conversion
    let value = ConfigValue::Boolean(true);
    assert_eq!(value.as_boolean(), Some(true));
    assert_eq!(value.as_string(), Some("true".to_string()));

    // String to boolean conversion
    let value = ConfigValue::String("yes".to_string());
    assert_eq!(value.as_boolean(), Some(true));

    let value = ConfigValue::String("false".to_string());
    assert_eq!(value.as_boolean(), Some(false));

    // String to integer conversion
    let value = ConfigValue::String("123".to_string());
    assert_eq!(value.as_integer(), Some(123));

    // Invalid conversions
    let value = ConfigValue::String("not_a_number".to_string());
    assert_eq!(value.as_integer(), None);

    let value = ConfigValue::Array(vec![]);
    assert_eq!(value.as_string(), None);
}

#[test]
fn test_config_value_integer_text_edges() {
    assert_eq!(ConfigValue::Integer(0).as_string(), Some("0".to_string()));
    assert_eq!(ConfigValue::Integer(-42).as_string(), Some("-42".to_string()));
    assert_eq!(
        ConfigValue::Integer(i64::MIN).as_string(),
        Some(i64::MIN.to_string())
    );
    assert_eq!(
        ConfigValue::Integer(i64::MAX).as_string(),
        Some(i64::MAX.to_string())
    );
    assert_eq!(
        ConfigValue::String(i64::MIN.to_string()).as_integer(),
        Some(i64::MIN)
    );
    assert_eq!(
        ConfigValue::String(i64::MAX.to_string()).as_integer(),
        Some(i64::MAX)
    );
    assert_eq!(
        ConfigValue::String("9223372036854775808".to_string()).as_integer(),
        None
    );
    assert_eq!(ConfigValue::String("+7".to_string()).as_integer(), Some(7));
    assert_eq!(ConfigValue::String("".to_string()).as_integer(), None);
    assert_eq!(ConfigValue::String("-".to_string()).as_integer(), None);
}

#[test]
fn test_config_value_boolean_tokens() {
    for token in ["true", "YES", "On", "1"] {
        assert_eq!(
            ConfigValue::String(token.to_string()).as_boolean(),
            Some(true)
        );
    }
    for token in ["False", "no", "OFF", "0"] {
        assert_eq!(
            ConfigValue::String(token.to_string()).as_boolean(),
            Some(false)
        );
    }
    assert_eq!(ConfigValue::String("maybe".to_string()).as_boolean(), None);
    assert_eq!(ConfigValue::Integer(5).as_boolean(), Some(true));
    assert_eq!(ConfigValue::Integer(0).as_boolean(), Some(false));
}

#[test]
fn test_config_manager_creation() {
    let manager = ConfigManager::new();
    assert_eq!(manager.sources_count(), 0);
}

#[test]
fn test_config_manager_properties_source() {
    let mut manager = ConfigManager::new();
    let entries = props(&[
        ("app.name", "TestApp"),
        ("app.port", "8080"),
        ("app.debug", "true"),
    ]);

    manager.add_source(ConfigSource::Properties(entries)).unwrap();

    assert_eq!(manager.get_string("app.name").unwrap(), "TestApp");
    assert_eq!(manager.get_integer("app.port").unwrap(), 8080);
    assert_eq!(manager.get_boolean("app.debug").unwrap(), true);

    // Test missing key
    assert!(manager.get_string("missing.key").is_err());
}

#[test]
fn test_config_manager_defaults() {
    let mut manager = ConfigManager::new();

    assert_eq!(
        manager.get_string_or_default("missing.key", "default"),
        "default"
    );
    assert_eq!(manager.get_integer_or_default("missing.key", 42), 42);
    assert_eq!(manager.get_boolean_or_default("missing.key", true), true);
}

#[test]
fn test_config_manager_source_precedence() {
    let mut manager = ConfigManager::new();

    // Add first source
    let props1 = props(&[("app.name", "App1"), ("app.version", "1.0")]);
    manager.add_source(ConfigSource::Properties(props1)).unwrap();

    // Add second source with overlapping key
    let props2 = props(&[("app.name", "App2"), ("app.port", "8080")]);
    manager.add_source(ConfigSource::Properties(props2)).unwrap();

    // Second source should take precedence
    assert_eq!(manager.get_string("app.name").unwrap(), "App2");
    assert_eq!(manager.get_string("app.version").unwrap(), "1.0");
    assert_eq!(manager.get_string("app.port").unwrap(), "8080");
}

#[test]
fn test_config_manager_cache() {
    let mut manager = ConfigManager::new();
    let entries = props(&[("test.key", "test.value")]);

    manager.add_source(ConfigSource::Properties(entries)).unwrap();

    // First access populates the cache
    assert_eq!(manager.get_string("test.key").unwrap(), "test.value");

    // Second access uses the cache
    assert_eq!(manager.get_string("test.key").unwrap(), "test.value");

    // Runtime override
    manager.set("runtime.key", ConfigValue::String("runtime.value".to_string()));
    assert_eq!(manager.get_string("runtime.key").unwrap(), "runtime.value");
}

#[test]
fn test_config_manager_cache_invalidation() {
    let mut manager = ConfigManager::new();
    let entries = props(&[("test.key", "test.value")]);

    manager.add_source(ConfigSource::Properties(entries)).unwrap();

    // Access to populate the cache
    assert_eq!(manager.get_string("test.key").unwrap(), "test.value");

    // Invalidate the cache
    manager.invalidate_cache();

    // Still resolves, reloaded from the source
    assert_eq!(manager.get_string("test.key").unwrap(), "test.value");
}

#[test]
fn test_config_manager_cache_reflects_later_source() {
    let mut manager = ConfigManager::new();
    manager
        .add_source(ConfigSource::Properties(props(&[("k", "1")])))
        .unwrap();
    assert_eq!(manager.get_string("k").unwrap(), "1");

    // a newly added source supersedes what the cache held
    manager
        .add_source(ConfigSource::Properties(props(&[("k", "2")])))
        .unwrap();
    assert_eq!(manager.get_string("k").unwrap(), "2");

    // and an override supersedes both
    manager.set("k", ConfigValue::String("3".to_string()));
    assert_eq!(manager.get_string("k").unwrap(), "3");
}

#[test]
fn test_config_source_types() {
    let mut manager = ConfigManager::new();

    let entries = props(&[("source.type", "properties")]);
    manager.add_source(ConfigSource::Properties(entries)).unwrap();

    assert_eq!(manager.get_string("source.type").unwrap(), "properties");
}

#[test]
fn test_multiple_config_formats() {
    let mut manager = ConfigManager::new();

    let entries = props(&[("app.name", "PropsApp"), ("app.version", "1.0")]);
    manager.add_source(ConfigSource::Properties(entries)).unwrap();

    let override_entries = props(&[("app.name", "OverrideApp"), ("app.env", "test")]);
    manager
        .add_source(ConfigSource::Properties(override_entries))
        .unwrap();

    assert_eq!(manager.get_string("app.name").unwrap(), "OverrideApp");
    assert_eq!(manager.get_string("app.version").unwrap(), "1.0");
    assert_eq!(manager.get_string("app.env").unwrap(), "test");
}

#[test]
fn test_yaml_parsing() {
    let yaml_content = "
app:
  name: \"TestApp\"
  port: 8080
  features:
    - \"auth\"
    - \"logging\"
database:
  host: \"localhost\"
  port: 5432
  ssl: true
";

    let mut manager = ConfigManager::new();
    manager
        .add_source_content(ConfigSource::YamlFile("app.yaml".to_string()), yaml_content)
        .unwrap();

    assert_eq!(manager.get_string("app.name").unwrap(), "TestApp");
    assert_eq!(manager.get_string("app.port").unwrap(), "8080");
    assert_eq!(manager.get_string("database.host").unwrap(), "localhost");
    assert_eq!(manager.get_string("database.ssl").unwrap(), "true");
    assert_eq!(manager.get_string("app.features").unwrap(), "auth,logging");
}

#[test]
fn test_toml_parsing() {
    let toml_content = "
[app]
name = \"TestApp\"
port = 8080
features = [\"auth\", \"logging\"]

[database]
ssl = true
";

    let mut manager = ConfigManager::new();
    manager
        .add_source_content(ConfigSource::TomlFile("app.toml".to_string()), toml_content)
        .unwrap();

    assert_eq!(manager.get_string("app.name").unwrap(), "TestApp");
    assert_eq!(manager.get_integer("app.port").unwrap(), 8080);
    assert_eq!(manager.get_string("app.features").unwrap(), "auth,logging");
    assert_eq!(manager.get_boolean("database.ssl").unwrap(), true);
}

#[test]
fn test_config_file_format_detection() {
    let mut manager = ConfigManager::new();
    manager
        .add_source_content(
            ConfigSource::ConfigFile("settings.YAML".to_string()),
            "app:\n  kind: yaml\n",
        )
        .unwrap();
    assert_eq!(manager.get_string("app.kind").unwrap(), "yaml");

    // an unknown extension is tried as TOML first
    manager
        .add_source_content(
            ConfigSource::ConfigFile("settings.conf".to_string()),
            "[app]\nother = \"toml\"\n",
        )
        .unwrap();
    assert_eq!(manager.get_string("app.other").unwrap(), "toml");

    // TOML that does not parse is rejected for a TOML path
    let bad = manager.add_source_content(
        ConfigSource::TomlFile("broken.toml".to_string()),
        ": not toml at all [",
    );
    assert!(bad.is_err());
}

#[test]
fn test_properties_parsing() {
    let properties_content = "
# Application configuration
app.name=TestApp
app.port=8080
app.debug=true

# Database configuration
database.host=localhost
database.port=5432
database.ssl=true

# Comments and empty lines should be ignored
! This is another comment style
";

    let mut manager = ConfigManager::new();
    manager
        .add_source_content(
            ConfigSource::PropertiesFile("app.properties".to_string()),
            properties_content,
        )
        .unwrap();

    assert_eq!(manager.get_string("app.name").unwrap(), "TestApp");
    assert_eq!(manager.get_string("app.port").unwrap(), "8080");
    assert_eq!(manager.get_string("app.debug").unwrap(), "true");
    assert_eq!(manager.get_string("database.host").unwrap(), "localhost");
    assert_eq!(manager.get_string("database.port").unwrap(), "5432");
    assert_eq!(manager.get_string("database.ssl").unwrap(), "true");
}

#[test]
fn test_properties_escape_sequences() {
    let properties_content = "
message.welcome=Hello\\nWorld\\tTest
file.path=C:\\\\Users\\\\Test
";

    let mut manager = ConfigManager::new();
    manager
        .add_source_content(
            ConfigSource::PropertiesFile("app.properties".to_string()),
            properties_content,
        )
        .unwrap();

    assert_eq!(
        manager.get_string("message.welcome").unwrap(),
        "Hello\nWorld\tTest"
    );
    assert_eq!(manager.get_string("file.path").unwrap(), "C:\\Users\\Test");
}

#[test]
fn test_properties_line_parsing_direct() {
    // value containing a literal newline after unescaping
    let entries = parse_properties("msg=Hello\\nWorld");
    assert_eq!(entries.len(), 1);
    assert_eq!(entries[0].0, "msg");
    assert_eq!(entries[0].1, "Hello\nWorld");

    // the first separator splits, whether = or :
    let entries = parse_properties("a:b=c\n  spaced.key  =  spaced value  ");
    assert_eq!(entries[0], ("a".to_string(), "b=c".to_string()));
    assert_eq!(entries[1], ("spaced.key".to_string(), "spaced value".to_string()));

    // lines without a separator are ignored
    let entries = parse_properties("no separator here\nk=v");
    assert_eq!(entries.len(), 1);
    assert_eq!(entries[0], ("k".to_string(), "v".to_string()));
}

#[test]
fn test_flatten_nested_mapping_round_trip() {
    // {app: {name: "X", features: ["a", "b"]}} flattens to app.name -> X
    // and app.features -> a,b
    let tree = ConfigTree::Table(vec![(
        "app".to_string(),
        ConfigTree::Table(vec![
            ("name".to_string(), ConfigTree::Leaf("X".to_string())),
            (
                "features".to_string(),
                ConfigTree::List(vec![
                    ConfigTree::Leaf("a".to_string()),
                    ConfigTree::Leaf("b".to_string()),
                ]),
            ),
        ]),
    )]);
    let flat = flatten_tree(&tree, "");
    assert_eq!(
        flat,
        vec![
            ("app.name".to_string(), "X".to_string()),
            ("app.features".to_string(), "a,b".to_string()),
        ]
    );
}

#[test]
fn test_env_var_name_rule() {
    assert_eq!(env_var_name("app.port"), "APP_PORT");
    assert_eq!(env_var_name("database.ssl.enabled"), "DATABASE_SSL_ENABLED");
    assert_eq!(env_var_name("MixedCase.key"), "MIXEDCASE_KEY");
}

#[test]
fn test_profile_precedence_through_manager() {
    let mut manager = ConfigManager::new();
    manager
        .add_source(ConfigSource::Properties(props(&[("app.name", "FromSource")])))
        .unwrap();
    manager
        .add_profile(Profile::new(
            "dev",
            vec![("app.name".to_string(), "FromProfile".to_string())],
        ))
        .unwrap();
    manager.activate_profile("dev").unwrap();

    // the active profile takes precedence over sources
    assert_eq!(manager.get_string("app.name").unwrap(), "FromProfile");

    // an override takes precedence over the profile
    manager.set("app.name", ConfigValue::String("FromOverride".to_string()));
    assert_eq!(manager.get_string("app.name").unwrap(), "FromOverride");
}

#[test]
fn test_properties_edge_cases() {
    // empty content defines nothing
    assert!(parse_properties("").is_empty());

    // an empty value and an empty key are kept as written
    let entries = parse_properties("x=\n=y");
    assert_eq!(entries[0], ("x".to_string(), "".to_string()));
    assert_eq!(entries[1], ("".to_string(), "y".to_string()));

    // tabs count as blank space around keys and values
    let entries = parse_properties("\tk\t=\tv\t");
    assert_eq!(entries, vec![("k".to_string(), "v".to_string())]);

    // a backslash before an unknown character stays as written
    let entries = parse_properties("k=a\\xb");
    assert_eq!(entries, vec![("k".to_string(), "a\\xb".to_string())]);
}

#[test]
fn test_flatten_typed_scalars() {
    // {a: {b: 1}} flattens to a.b -> "1", with the decimal rendering a
    // verified fact; booleans render as true/false the same way
    let tree = ConfigTree::Table(vec![(
        "a".to_string(),
        ConfigTree::Table(vec![
            ("b".to_string(), ConfigTree::Int(1)),
            ("c".to_string(), ConfigTree::Flag(true)),
            ("d".to_string(), ConfigTree::Int(-42)),
        ]),
    )]);
    assert_eq!(
        flatten_tree(&tree, ""),
        vec![
            ("a.b".to_string(), "1".to_string()),
            ("a.c".to_string(), "true".to_string()),
            ("a.d".to_string(), "-42".to_string()),
        ]
    );

    // lists join typed scalars with commas
    let list = ConfigTree::Table(vec![(
        "nums".to_string(),
        ConfigTree::List(vec![ConfigTree::Int(1), ConfigTree::Int(2), ConfigTree::Flag(false)]),
    )]);
    assert_eq!(
        flatten_tree(&list, ""),
        vec![("nums".to_string(), "1,2,false".to_string())]
    );
}

#[test]
fn test_flatten_edge_cases() {
    // an empty table defines nothing
    assert!(flatten_tree(&ConfigTree::Table(Vec::new()), "").is_empty());

    // a scalar at the root has no key and is dropped
    assert!(flatten_tree(&ConfigTree::Leaf("x".to_string()), "").is_empty());

    // an empty list renders as empty text
    let tree = ConfigTree::Table(vec![(
        "a".to_string(),
        ConfigTree::List(Vec::new()),
    )]);
    assert_eq!(
        flatten_tree(&tree, ""),
        vec![("a".to_string(), "".to_string())]
    );
}

#[test]
fn test_get_returns_structured_overrides() {
    let mut manager = ConfigManager::new();
    manager.set(
        "list",
        ConfigValue::Array(vec![ConfigValue::Integer(1), ConfigValue::Integer(2)]),
    );

    // the structured value comes back as set, and has no text form
    let value = manager.get("list").unwrap();
    assert_eq!(
        value,
        ConfigValue::Array(vec![ConfigValue::Integer(1), ConfigValue::Integer(2)])
    );
    assert!(manager.get_string("list").is_err());
    assert!(manager.get("missing").is_none());
}

#[test]
fn test_environment_source_position() {
    let mut manager = ConfigManager::new();
    manager
        .add_source(ConfigSource::Properties(props(&[("k", "from-first")])))
        .unwrap();
    manager.add_source(ConfigSource::Environment).unwrap();
    manager
        .add_source(ConfigSource::Properties(props(&[("j", "from-last")])))
        .unwrap();

    // with no entries supplied, the environment source defines nothing
    assert_eq!(manager.get_string("k").unwrap(), "from-first");

    // supplied entries are consulted at the environment source's position:
    // they win over the source added before it and lose to the one after
    manager.provide_environment_entries(props(&[("k", "from-env"), ("j", "from-env")]));
    assert_eq!(manager.get_string("k").unwrap(), "from-env");
    assert_eq!(manager.get_string("j").unwrap(), "from-last");
}
