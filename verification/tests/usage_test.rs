use cliconf::{generate_string, Flag, FlagValue, Flags};

#[test]
fn test_generate() {
    let mut flags = Flags::new();
    flags.add(
        Flag::new("name", FlagValue::String("john".into()))
            .shorthand('n')
            .description("The person we want to greet"),
    );
    flags.add(
        Flag::new("long", FlagValue::String("long".into()))
            .shorthand('l')
            .description("A flag with a super duper long description. Like, this is a very long description and is totally overwhelming the user. We really need to stop making things so long and complicated guys. The poor users can't handle it!"),
    );
    flags.add(
        Flag::new("zzz", FlagValue::Bool(false)).description("An argument with no shorthand!"),
    );
    flags.add(
        Flag::new("excluded", FlagValue::Bool(false))
            .description("This flag is excluded from the usage string")
            .exclude_from_usage(),
    );

    let target = "--long / -l
    A flag with a super duper long description. Like, this is a very long 
    description and is totally overwhelming the user. We really need to stop 
    making things so long and complicated guys. The poor users can't handle it! 
    (default: long)

--name / -n
    The person we want to greet (default: john)

--zzz
    An argument with no shorthand! (default: false)
";

    let result = generate_string(&flags, 80);
    assert_eq!(result, target);
}

#[test]
fn generate_renders_defaults() {
    let mut flags = Flags::new();
    flags.add(
        Flag::new("ports", FlagValue::Int64Array(vec![80, 443])).description("Ports to bind"),
    );
    let out = generate_string(&flags, 80);
    assert_eq!(out, "--ports\n    Ports to bind (default: [80, 443])\n");
}

#[test]
fn env_var_names() {
    let f = Flag::new("max-size", FlagValue::Int64(0));
    assert_eq!(f.env_var_name(), "MAX_SIZE");
    let f = Flag::new("a1-b2", FlagValue::Bool(false));
    assert_eq!(f.env_var_name(), "A1_B2");
}
