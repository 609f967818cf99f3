use cliconf::{Flag, FlagValue, Flags, LoadFault, Warning};

fn no_files() -> Vec<Option<String>> {
    Vec::new()
}

fn no_env() -> Vec<(String, String)> {
    Vec::new()
}

fn args_of(words: &[&str]) -> Vec<String> {
    words.iter().map(|s| s.to_string()).collect()
}

#[test]
fn unknown_long_flag_is_a_fault() {
    let mut flags = Flags::new();
    let fault = flags.load(&no_files(), &no_env(), &args_of(&["--nope"])).unwrap_err();
    assert_eq!(fault.message(), "Unknown flag: --nope");
}

#[test]
fn unknown_shorthand_is_a_fault() {
    let mut flags = Flags::new();
    let fault = flags.load(&no_files(), &no_env(), &args_of(&["-c"])).unwrap_err();
    assert_eq!(fault.message(), "Unknown flag: -c");
}

#[test]
fn invalid_names_fail_construction() {
    assert!(Flag::try_new("My Flag", FlagValue::Bool(false)).is_none());
    assert!(Flag::try_new("", FlagValue::Bool(false)).is_none());
    assert!(Flag::try_new("UPPER", FlagValue::Bool(false)).is_none());
    assert!(Flag::try_new("ok-name9", FlagValue::Bool(false)).is_some());
    let f = Flag::try_new("flag", FlagValue::Bool(false)).unwrap();
    assert!(f.try_with_shorthand('$').is_none());
    let f = Flag::try_new("flag", FlagValue::Bool(false)).unwrap();
    assert!(f.try_with_shorthand('x').is_some());
    let f = Flag::try_new("scalar", FlagValue::Int64(0)).unwrap();
    assert!(f.try_with_env_delimiter(",").is_none());
    let f = Flag::try_new("arr", FlagValue::Int64Array(vec![])).unwrap();
    assert!(f.try_with_env_delimiter("").is_none());
    let f = Flag::try_new("arr", FlagValue::Int64Array(vec![])).unwrap();
    assert!(f.try_with_env_delimiter(",").is_some());
}

#[test]
fn duplicate_registration_is_refused() {
    let mut flags = Flags::new();
    assert!(flags.try_add(Flag::new("twice", FlagValue::Bool(false)).shorthand('t')));
    assert!(!flags.try_add(Flag::new("twice", FlagValue::Int64(0))));
    assert!(!flags.try_add(Flag::new("other", FlagValue::Bool(false)).shorthand('t')));
    assert!(flags.try_add(Flag::new("other", FlagValue::Bool(false)).shorthand('o')));
}

#[test]
fn shorthand_values() {
    let mut flags = Flags::new();
    flags.add(Flag::new("host", FlagValue::String(String::new())).shorthand('h'));
    flags.add(Flag::new("port", FlagValue::Int64(80)).shorthand('p'));
    flags.load(&no_files(), &no_env(), &args_of(&["-h", "localhost", "-p", "3000"])).unwrap();
    assert_eq!(flags.get_string("host"), "localhost");
    assert_eq!(flags.get_i64("port"), 3000);
}

#[test]
fn env_array_with_delimiter() {
    let mut flags = Flags::new();
    flags.add(
        Flag::new("udp-port", FlagValue::Int64Array(vec![])).env_delimiter(","),
    );
    let env = vec![("UDP_PORT".to_string(), "5000,5001,5002".to_string())];
    flags.load(&no_files(), &env, &Vec::new()).unwrap();
    assert_eq!(flags.get_i64_array("udp-port"), vec![5000, 5001, 5002]);
}

#[test]
fn terminator_keeps_the_rest_positional() {
    let mut flags = Flags::new();
    flags.add(Flag::new("f", FlagValue::Bool(false)).shorthand('f'));
    let pos = flags
        .load(&no_files(), &no_env(), &args_of(&["a", "--", "--not-a-flag", "-f"]))
        .unwrap();
    assert_eq!(pos, args_of(&["a", "--not-a-flag", "-f"]));
    assert_eq!(flags.positionals(), &args_of(&["a", "--not-a-flag", "-f"]));
    assert_eq!(flags.get_bool("f"), false);
}

#[test]
fn lone_dash_is_positional() {
    let mut flags = Flags::new();
    let pos = flags.load(&no_files(), &no_env(), &args_of(&["-"])).unwrap();
    assert_eq!(pos, args_of(&["-"]));
}

#[test]
fn json_float_config() {
    let mut flags = Flags::new();
    flags.add(Flag::new(
        "timeout-sec",
        FlagValue::Float64(serde_json::Number::from_f64(0.0).unwrap()),
    ));
    flags.add_config_file("conf.json");
    let files = vec![Some(r#"{"timeout-sec": 1.5}"#.to_string())];
    flags.load(&files, &no_env(), &Vec::new()).unwrap();
    assert_eq!(flags.get_f64("timeout-sec").as_f64().unwrap(), 1.5);
    assert_eq!(flags.warnings().len(), 0);
}

#[test]
fn json_type_mismatch_is_a_warning() {
    let mut flags = Flags::new();
    flags.add(Flag::new(
        "timeout-sec",
        FlagValue::Float64(serde_json::Number::from_f64(0.0).unwrap()),
    ));
    flags.add_config_file("conf.json");
    let files = vec![Some(r#"{"timeout-sec": "x"}"#.to_string())];
    flags.load(&files, &no_env(), &Vec::new()).unwrap();
    assert_eq!(flags.get_f64("timeout-sec").as_f64().unwrap(), 0.0);
    assert_eq!(flags.warnings().len(), 1);
    assert!(matches!(flags.warnings()[0], Warning::TypeMismatch { .. }));
}

#[test]
fn scalar_last_phase_wins() {
    let mut flags = Flags::new();
    flags.add(Flag::new("port", FlagValue::Int64(80)));
    flags.add_config_file("conf.json");
    let files = vec![Some(r#"{"port": 1}"#.to_string())];
    let env = vec![("PORT".to_string(), "2".to_string())];
    flags.load(&files, &env, &args_of(&["--port", "3"])).unwrap();
    assert_eq!(flags.get_i64("port"), 3);

    let mut flags = Flags::new();
    flags.add(Flag::new("port", FlagValue::Int64(80)));
    flags.add_config_file("conf.json");
    let files = vec![Some(r#"{"port": 1}"#.to_string())];
    let env = vec![("PORT".to_string(), "2".to_string())];
    flags.load(&files, &env, &Vec::new()).unwrap();
    assert_eq!(flags.get_i64("port"), 2);
}

#[test]
fn array_args_reset_then_append() {
    let mut flags = Flags::new();
    flags.add(Flag::new(
        "name-list",
        FlagValue::StringArray(vec!["default".to_string()]),
    ));
    flags
        .load(
            &no_files(),
            &no_env(),
            &args_of(&["--name-list", "v1", "--name-list", "v2"]),
        )
        .unwrap();
    assert_eq!(
        flags.get_string_array("name-list"),
        vec!["v1".to_string(), "v2".to_string()]
    );
}

#[test]
fn two_config_files_concatenate_arrays() {
    let mut flags = Flags::new();
    flags.add(Flag::new(
        "tags",
        FlagValue::StringArray(vec!["default".to_string()]),
    ));
    flags.add_config_file("one.json");
    flags.add_config_file("two.json");
    let files = vec![
        Some(r#"{"tags": ["a", "b"]}"#.to_string()),
        Some(r#"{"tags": ["c"]}"#.to_string()),
    ];
    flags.load(&files, &no_env(), &Vec::new()).unwrap();
    assert_eq!(
        flags.get_string_array("tags"),
        vec!["a".to_string(), "b".to_string(), "c".to_string()]
    );
}

#[test]
fn parse_fault_messages() {
    let mut flags = Flags::new();
    flags.add(Flag::new("port", FlagValue::Int64(80)));
    let fault = flags
        .load(&no_files(), &no_env(), &args_of(&["--port", "abc"]))
        .unwrap_err();
    assert!(matches!(fault, LoadFault::ParseFailure { .. }));
    assert_eq!(fault.message(), "Invalid value \"abc\" for flag --port");
    assert_eq!(flags.get_i64("port"), 80);

    let mut flags = Flags::new();
    flags.add(Flag::new("port", FlagValue::Int64(80)));
    let env = vec![("PORT".to_string(), "xyz".to_string())];
    let fault = flags.load(&no_files(), &env, &Vec::new()).unwrap_err();
    assert_eq!(fault.message(), "Invalid value \"xyz\" for flag --port");
}

#[test]
fn config_warnings() {
    let mut flags = Flags::new();
    flags.add(Flag::new("port", FlagValue::Int64(80)));
    flags.add_config_file("missing.json");
    flags.add_config_file("broken.json");
    flags.add_config_file("stray.json");
    let files = vec![
        None,
        Some("not json at all".to_string()),
        Some(r#"{"nope": 1}"#.to_string()),
    ];
    flags.load(&files, &no_env(), &Vec::new()).unwrap();
    let warnings = flags.warnings();
    assert_eq!(warnings.len(), 3);
    assert!(matches!(warnings[0], Warning::FileUnreadable { index: 0 }));
    assert!(matches!(warnings[1], Warning::MalformedJson { index: 1 }));
    assert!(matches!(warnings[2], Warning::UnknownProperty { index: 2, .. }));
    assert_eq!(warnings[0].message(), "Could not read config file 0");
}

#[test]
fn env_array_without_delimiter_is_skipped() {
    let mut flags = Flags::new();
    flags.add(Flag::new("tags", FlagValue::StringArray(vec![])));
    let env = vec![("TAGS".to_string(), "a,b".to_string())];
    flags.load(&no_files(), &env, &Vec::new()).unwrap();
    assert_eq!(flags.get_string_array("tags"), Vec::<String>::new());
    assert_eq!(flags.warnings().len(), 1);
    assert!(matches!(flags.warnings()[0], Warning::NoDelimiter { .. }));
}

#[test]
fn clustered_shorthands() {
    let mut flags = Flags::new();
    flags.add(Flag::new("alpha", FlagValue::Bool(false)).shorthand('a'));
    flags.add(Flag::new("beta", FlagValue::Bool(false)).shorthand('b'));
    flags.add(Flag::new("out", FlagValue::String(String::new())).shorthand('o'));
    flags.load(&no_files(), &no_env(), &args_of(&["-abo", "val"])).unwrap();
    assert!(flags.get_bool("alpha"));
    assert!(flags.get_bool("beta"));
    assert_eq!(flags.get_string("out"), "val");
}

#[test]
fn dangling_value_flag_is_ignored() {
    let mut flags = Flags::new();
    flags.add(Flag::new("port", FlagValue::Int64(80)));
    flags.load(&no_files(), &no_env(), &args_of(&["--port"])).unwrap();
    assert_eq!(flags.get_i64("port"), 80);
}

#[test]
fn json_int_range_coercions() {
    let mut flags = Flags::new();
    flags.add(Flag::new("small", FlagValue::Int64(0)));
    flags.add(Flag::new("wide", FlagValue::Int128(0)));
    flags.add_config_file("conf.json");
    let files = vec![Some(
        r#"{"small": -7, "wide": 18446744073709551615}"#.to_string(),
    )];
    flags.load(&files, &no_env(), &Vec::new()).unwrap();
    assert_eq!(flags.get_i64("small"), -7);
    assert_eq!(flags.get_i128("wide"), 18446744073709551615i128);
}

#[test]
fn json_array_all_or_nothing() {
    let mut flags = Flags::new();
    flags.add(Flag::new("tags", FlagValue::StringArray(vec!["kept".to_string()])));
    flags.add_config_file("conf.json");
    let files = vec![Some(r#"{"tags": ["a", 1]}"#.to_string())];
    flags.load(&files, &no_env(), &Vec::new()).unwrap();
    assert_eq!(flags.get_string_array("tags"), vec!["kept".to_string()]);
    assert!(matches!(flags.warnings()[0], Warning::TypeMismatch { .. }));
}

#[test]
fn env_scalar_and_float_arrays() {
    let mut flags = Flags::new();
    flags.add(Flag::new(
        "rates",
        FlagValue::Float64Array(vec![]),
    ).env_delimiter(";"));
    let env = vec![("RATES".to_string(), "0.5;1.5".to_string())];
    flags.load(&no_files(), &env, &Vec::new()).unwrap();
    let rates = flags.get_f64_array("rates");
    assert_eq!(rates.len(), 2);
    assert_eq!(rates[0].as_f64().unwrap(), 0.5);
    assert_eq!(rates[1].as_f64().unwrap(), 1.5);
}

#[test]
fn bool_last_phase_wins() {
    let mut flags = Flags::new();
    flags.add(Flag::new("verbose", FlagValue::Bool(false)));
    flags.add_config_file("conf.json");
    let files = vec![Some(r#"{"verbose": false}"#.to_string())];
    let env = vec![("VERBOSE".to_string(), "false".to_string())];
    flags.load(&files, &env, &args_of(&["--verbose"])).unwrap();
    assert!(flags.get_bool("verbose"));
}

#[test]
fn cluster_stops_at_first_value_flag() {
    let mut flags = Flags::new();
    flags.add(Flag::new("out", FlagValue::String(String::new())).shorthand('o'));
    flags.add(Flag::new("extra", FlagValue::Bool(false)).shorthand('x'));
    flags.load(&no_files(), &no_env(), &args_of(&["-ox", "v"])).unwrap();
    assert_eq!(flags.get_string("out"), "v");
    assert!(!flags.get_bool("extra"));
}
