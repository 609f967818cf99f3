use cliconf::{Flag, FlagValue, Flags};

fn conf() -> Flags {
    let mut flags = Flags::new();
    flags.add(Flag::new("my-bool", FlagValue::Bool(false)).shorthand('b'));
    flags.add(Flag::new("my-string", FlagValue::String(String::new())).shorthand('s'));
    flags.add(Flag::new("my-num", FlagValue::Int64(0)));
    flags.add(
        Flag::new("my-string-vec", FlagValue::StringArray(vec![]))
            .shorthand('v')
            .env_delimiter(","),
    );
    flags
}

fn assertions(flags: &Flags) {
    assert_eq!(flags.get_bool("my-bool"), true);
    assert_eq!(flags.get_string("my-string"), "1");
    assert_eq!(flags.get_i64("my-num"), 1);
    assert_eq!(
        flags.get_string_array("my-string-vec"),
        vec!["1".to_string(), "2".to_string()]
    );
}

#[test]
fn test_env() {
    let mut c = conf();

    let vars: Vec<(String, String)> = vec![
        ("MY_BOOL".to_string(), "true".to_string()),
        ("MY_STRING".to_string(), "1".to_string()),
        ("MY_NUM".to_string(), "1".to_string()),
        ("MY_STRING_VEC".to_string(), "1,2".to_string()),
    ];

    c.parse_env(&vars).unwrap();

    assertions(&c);
}

#[test]
fn test_args() {
    let mut c = conf();

    let args: Vec<String> = vec![
        "--my-bool",
        "--my-string",
        "1",
        "--my-num",
        "1",
        "--my-string-vec",
        "1",
        "--my-string-vec",
        "2",
    ]
    .iter()
    .map(|s| s.to_string())
    .collect();

    c.parse_args(&args).unwrap();

    assertions(&c);
}

#[test]
fn test_args_shorthand() {
    let mut c = conf();

    let args: Vec<String> = vec!["-b", "-s", "1", "--my-num", "1", "-v", "1", "-v", "2"]
        .iter()
        .map(|s| s.to_string())
        .collect();

    c.parse_args(&args).unwrap();

    assertions(&c);
}

#[test]
fn test_config_text() {
    let mut c = conf();
    c.add_config_file("conf.json");

    let text = r#"{"my-bool": true, "my-string": "1", "my-num": 1, "my-string-vec": ["1", "2"]}"#;
    let files: Vec<Option<String>> = vec![Some(text.to_string())];

    c.load(&files, &Vec::new(), &Vec::new()).unwrap();

    assertions(&c);
    assert_eq!(c.warnings().len(), 0);
}
