use solutions::error_handling::{load_config_with_context, Config, ConfigError};

#[test]
fn test_config_creation() {
    let config = Config::new();
    assert!(config.is_empty());
    assert_eq!(config.len(), 0);
}

#[test]
fn test_valid_config_string() {
    let content = r#"
# This is a comment
app_name=MyApp
port=8080
debug=true

# Another comment
host=localhost
"#;
    let config = Config::from_string(content).unwrap();

    assert_eq!(config.get("app_name"), Some(&"MyApp".to_string()));
    assert_eq!(config.get("port"), Some(&"8080".to_string()));
    assert_eq!(config.get("debug"), Some(&"true".to_string()));
    assert_eq!(config.get("host"), Some(&"localhost".to_string()));
    assert_eq!(config.len(), 4);
}

#[test]
fn test_get_required() {
    let content = "app_name=TestApp\nport=3000";
    let config = Config::from_string(content).unwrap();

    assert_eq!(config.get_required("app_name").unwrap(), "TestApp");
    assert!(config.get_required("nonexistent").is_err());
}

#[test]
fn test_get_int() {
    let content = "port=8080\ninvalid_port=abc";
    let config = Config::from_string(content).unwrap();

    assert_eq!(config.get_int("port").unwrap(), 8080);

    let result = config.get_int("invalid_port");
    assert!(result.is_err());
    assert!(matches!(result.unwrap_err(), ConfigError::ParseError(_)));
}

#[test]
fn test_get_bool() {
    let content = r#"
debug=true
verbose=false
enabled=yes
disabled=no
active=1
inactive=0
invalid=maybe
"#;
    let config = Config::from_string(content).unwrap();

    assert_eq!(config.get_bool("debug").unwrap(), true);
    assert_eq!(config.get_bool("verbose").unwrap(), false);
    assert_eq!(config.get_bool("enabled").unwrap(), true);
    assert_eq!(config.get_bool("disabled").unwrap(), false);
    assert_eq!(config.get_bool("active").unwrap(), true);
    assert_eq!(config.get_bool("inactive").unwrap(), false);

    let result = config.get_bool("invalid");
    assert!(result.is_err());
    assert!(matches!(result.unwrap_err(), ConfigError::ParseError(_)));
}

#[test]
fn test_invalid_format() {
    let content = r#"
app_name=TestApp
invalid_line_without_equals
port=8080
"#;
    let result = Config::from_string(content);
    assert!(result.is_err());
    assert!(matches!(result.unwrap_err(), ConfigError::ParseError(_)));
}

#[test]
fn test_empty_key() {
    let content = "app_name=TestApp\n=value_without_key";
    let result = Config::from_string(content);
    assert!(result.is_err());
    assert!(matches!(result.unwrap_err(), ConfigError::ParseError(_)));
}

#[test]
fn test_validation_error() {
    let content = "port=0"; // Invalid port
    let result = Config::from_string(content);
    assert!(result.is_err());
    assert!(matches!(result.unwrap_err(), ConfigError::ValidationError(_)));
}

#[test]
fn test_comments_and_empty_lines() {
    let content = r#"
# Configuration file
# This is a comment

app_name=TestApp

# Server configuration
port=8080

# Debug settings
debug=true
"#;
    let config = Config::from_string(content).unwrap();

    assert_eq!(config.len(), 3); // Only non-comment, non-empty lines
    assert_eq!(config.get("app_name"), Some(&"TestApp".to_string()));
}

#[test]
fn test_config_modification() {
    let mut config = Config::new();
    config.set("test_key".to_string(), "test_value".to_string());

    assert_eq!(config.get("test_key"), Some(&"test_value".to_string()));
    assert_eq!(config.len(), 1);
    assert!(!config.is_empty());
}

#[test]
fn test_error_display() {
    let io_error = std::io::Error::new(std::io::ErrorKind::NotFound, "file not found");
    let config_error = ConfigError::IoError(io_error);

    let display = config_error.to_string();
    assert!(display.contains("IO error"));

    let parse_error = ConfigError::ParseError("invalid format".to_string());
    let display = parse_error.to_string();
    assert!(display.contains("Parse error"));

    let validation_error = ConfigError::ValidationError("missing key".to_string());
    let display = validation_error.to_string();
    assert!(display.contains("Validation error"));
}

#[test]
fn test_error_source() {
    let io_error = std::io::Error::new(std::io::ErrorKind::NotFound, "file not found");
    let config_error = ConfigError::IoError(io_error);

    assert!(config_error.source().is_some());

    let parse_error = ConfigError::ParseError("invalid".to_string());
    assert!(parse_error.source().is_none());
}

#[test]
fn test_from_conversion() {
    let io_error = std::io::Error::new(std::io::ErrorKind::PermissionDenied, "access denied");
    let config_error: ConfigError = io_error.into();

    assert!(matches!(config_error, ConfigError::IoError(_)));
}

#[test]
fn test_config_keys_iteration() {
    let content = "app_name=TestApp\nport=8080\ndebug=true";
    let config = Config::from_string(content).unwrap();

    let keys: Vec<String> = config.keys();
    assert_eq!(keys.len(), 3);

    let key_strs: Vec<&str> = keys.iter().map(|s| s.as_str()).collect();
    assert!(key_strs.contains(&"app_name"));
    assert!(key_strs.contains(&"port"));
    assert!(key_strs.contains(&"debug"));
}

#[test]
fn test_load_config_with_context() {
    let read = Err(std::io::Error::new(std::io::ErrorKind::NotFound, "No such file"));
    let result = load_config_with_context("nonexistent.conf", read);
    assert!(result.is_err());

    if let Err(ConfigError::ValidationError(msg)) = result {
        assert!(msg.contains("Failed to load config from"));
        assert_eq!(msg, "Failed to load config from 'nonexistent.conf'");
    } else {
        panic!("Expected ValidationError with context");
    }
}

#[test]
fn test_edge_cases() {
    // Test with spaces around equals
    let content = "app_name = TestApp\n port = 8080 ";
    let config = Config::from_string(content).unwrap();

    assert_eq!(config.get("app_name"), Some(&"TestApp".to_string()));
    assert_eq!(config.get("port"), Some(&"8080".to_string()));
}

#[test]
fn test_empty_config() {
    let content = "# Only comments\n\n# No actual config";
    let config = Config::from_string(content).unwrap();
    assert!(config.is_empty());
}

#[test]
fn test_error_propagation() {
    // Test that ? operator works correctly
    fn parse_and_get_port(content: &str) -> Result<i32, ConfigError> {
        let config = Config::from_string(content)?;
        config.get_int("port")
    }

    let valid_content = "port=8080";
    assert_eq!(parse_and_get_port(valid_content).unwrap(), 8080);

    let invalid_content = "port=invalid";
    assert!(parse_and_get_port(invalid_content).is_err());

    let malformed_content = "invalid_line";
    assert!(parse_and_get_port(malformed_content).is_err());
}

#[test]
fn test_error_messages_are_exact() {
    match Config::from_string("a=1\n\n  no equals here \nb=2") {
        Err(ConfigError::ParseError(m)) => {
            assert_eq!(m, "Invalid format on line 3: 'no equals here'")
        }
        other => panic!("expected a parse error, got {:?}", other),
    }
    match Config::from_string("a=1\r\n = x") {
        Err(ConfigError::ParseError(m)) => assert_eq!(m, "Empty key on line 2"),
        other => panic!("expected a parse error, got {:?}", other),
    }
    match Config::from_string("port= +00 ") {
        Err(ConfigError::ValidationError(m)) => assert_eq!(m, "Port cannot be 0"),
        other => panic!("expected a validation error, got {:?}", other),
    }
    let config = Config::from_string("n=12x\nflag=Maybe").unwrap();
    match config.get_int("n") {
        Err(ConfigError::ParseError(m)) => {
            assert_eq!(m, "Value '12x' for key 'n' is not a valid integer")
        }
        other => panic!("expected a parse error, got {:?}", other),
    }
    match config.get_bool("flag") {
        Err(ConfigError::ParseError(m)) => {
            assert_eq!(m, "Value 'Maybe' for key 'flag' is not a valid boolean")
        }
        other => panic!("expected a parse error, got {:?}", other),
    }
    match config.get_required("missing") {
        Err(ConfigError::ValidationError(m)) => assert_eq!(m, "Required key 'missing' not found"),
        other => panic!("expected a validation error, got {:?}", other),
    }
    match config.get_int("missing") {
        Err(ConfigError::ValidationError(m)) => assert_eq!(m, "Required key 'missing' not found"),
        other => panic!("expected a validation error, got {:?}", other),
    }
    assert_eq!(
        ConfigError::ParseError("bad".to_string()).to_string(),
        "Parse error: bad"
    );
    assert_eq!(
        ConfigError::ValidationError("worse".to_string()).to_string(),
        "Validation error: worse"
    );
}

#[test]
fn test_integers_as_the_standard_library_reads_them() {
    let samples = [
        "0", "-0", "+0", "7", "+7", "-7", "2147483647", "-2147483648", "2147483648",
        "-2147483649", "", "+", "-", "--1", "+-1", "1_000", " 1", "1 ", "0x10", "00012", "-00012",
        "99999999999999999999999", "١٢",
    ];
    let mut config = Config::new();
    for (i, s) in samples.iter().enumerate() {
        config.set(format!("k{}", i), s.to_string());
    }
    for (i, s) in samples.iter().enumerate() {
        let expected: Option<i32> = s.parse::<i32>().ok();
        assert_eq!(config.get_int(&format!("k{}", i)).ok(), expected, "for {:?}", s);
    }
}

#[test]
fn test_later_lines_override_and_values_keep_equals_signs() {
    let config = Config::from_string("url = a=b=c\nurl2=x\nurl2 = y ").unwrap();
    assert_eq!(config.get("url"), Some(&"a=b=c".to_string()));
    assert_eq!(config.get("url2"), Some(&"y".to_string()));
    assert_eq!(config.len(), 2);
    assert_eq!(config.keys(), vec!["url".to_string(), "url2".to_string()]);
}

#[test]
fn test_boolean_spellings_in_any_case() {
    let config = Config::from_string("a=TRUE\nb=Yes\nc=No\nd=FALSE\ne=2").unwrap();
    assert_eq!(config.get_bool("a").unwrap(), true);
    assert_eq!(config.get_bool("b").unwrap(), true);
    assert_eq!(config.get_bool("c").unwrap(), false);
    assert_eq!(config.get_bool("d").unwrap(), false);
    assert!(config.get_bool("e").is_err());
}

#[test]
fn test_port_that_is_no_number_passes_validation() {
    let config = Config::from_string("port=none").unwrap();
    assert_eq!(config.get("port"), Some(&"none".to_string()));
    let config = Config::from_string("port=70000").unwrap();
    assert_eq!(config.get_int("port").unwrap(), 70000);
}

#[test]
fn test_load_config_with_context_reads_what_was_read() {
    let config = load_config_with_context("app.conf", Ok("name=x".to_string())).unwrap();
    assert_eq!(config.get("name"), Some(&"x".to_string()));
    let result = load_config_with_context("app.conf", Ok("port=0".to_string()));
    assert!(matches!(result, Err(ConfigError::ValidationError(_))));
}
