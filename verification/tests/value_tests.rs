use cliconf::FlagValue;

#[test]
fn valid_casts() {
    FlagValue::Bool(false).as_bool();
    FlagValue::String(String::new()).as_string();
    FlagValue::Int64(0).as_i64();
    FlagValue::Int128(0).as_i128();
    FlagValue::Float64(serde_json::Number::from_f64(0.0).unwrap()).as_f64();
    FlagValue::StringArray(vec![String::new()]).as_vec_string();
    FlagValue::Int64Array(vec![0]).as_vec_i64();
    FlagValue::Int128Array(vec![0]).as_vec_i128();
    FlagValue::Float64Array(vec![serde_json::Number::from_f64(0.0).unwrap()]).as_vec_f64();
}

#[test]
fn parse_and_set() {
    assert!(FlagValue::Bool(false).parse_and_set("true").is_ok());
    assert!(FlagValue::String(String::new()).parse_and_set("1").is_ok());
    assert!(FlagValue::Int64(0).parse_and_set("1").is_ok());
    assert!(FlagValue::Int128(0).parse_and_set("1").is_ok());
    assert!(
        FlagValue::Float64(serde_json::Number::from_f64(0.0).unwrap()).parse_and_set("1.0").is_ok()
    );
    assert!(FlagValue::StringArray(vec![String::new()]).parse_and_set("1").is_ok());
    assert!(FlagValue::Int64Array(vec![0]).parse_and_set("1").is_ok());
    assert!(FlagValue::Int128Array(vec![0]).parse_and_set("1").is_ok());
    assert!(
        FlagValue::Float64Array(vec![serde_json::Number::from_f64(0.0).unwrap()])
            .parse_and_set("1.0")
            .is_ok()
    );
}

#[test]
fn bool_is_bool() {
    assert!(FlagValue::Bool(true).is_bool());
    assert!(FlagValue::Bool(false).is_bool());
}

#[test]
fn parse_and_set_values() {
    let mut v = FlagValue::Bool(false);
    assert!(v.parse_and_set("true").is_ok());
    assert!(v.as_bool());
    assert!(v.parse_and_set("false").is_ok());
    assert!(!v.as_bool());
    assert!(v.parse_and_set("yes").is_err());

    let mut v = FlagValue::Int64(0);
    assert!(v.parse_and_set("-42").is_ok());
    assert_eq!(v.as_i64(), -42);
    assert!(v.parse_and_set("abc").is_err());
    assert_eq!(v.as_i64(), -42);
    assert!(v.parse_and_set("9223372036854775808").is_err());
    assert!(v.parse_and_set("9223372036854775807").is_ok());
    assert_eq!(v.as_i64(), i64::MAX);

    let mut v = FlagValue::Int128(0);
    assert!(v.parse_and_set("170141183460469231731687303715884105727").is_ok());
    assert_eq!(v.as_i128(), i128::MAX);
    assert!(v.parse_and_set("-170141183460469231731687303715884105728").is_ok());
    assert_eq!(v.as_i128(), i128::MIN);
    assert!(v.parse_and_set("170141183460469231731687303715884105728").is_err());

    let mut v = FlagValue::Float64(serde_json::Number::from_f64(0.0).unwrap());
    assert!(v.parse_and_set("2.5").is_ok());
    assert_eq!(v.as_f64().as_f64().unwrap(), 2.5);
    assert!(v.parse_and_set("x").is_err());

    let mut v = FlagValue::StringArray(vec!["kept".to_string()]);
    assert!(v.parse_and_set("more").is_ok());
    assert_eq!(v.as_vec_string(), vec!["kept".to_string(), "more".to_string()]);
}

#[test]
fn scalar_round_trips() {
    let cases_i64: [i64; 5] = [0, 1, -1, i64::MAX, i64::MIN];
    for n in cases_i64 {
        let v = FlagValue::Int64(n);
        let text = v.to_text();
        let mut back = FlagValue::Int64(0);
        assert!(back.parse_and_set(&text).is_ok());
        assert_eq!(back.as_i64(), n);
    }
    let cases_i128: [i128; 3] = [0, i128::MAX, i128::MIN];
    for n in cases_i128 {
        let v = FlagValue::Int128(n);
        let text = v.to_text();
        let mut back = FlagValue::Int128(0);
        assert!(back.parse_and_set(&text).is_ok());
        assert_eq!(back.as_i128(), n);
    }
    let v = FlagValue::Bool(true);
    let mut back = FlagValue::Bool(false);
    assert!(back.parse_and_set(&v.to_text()).is_ok());
    assert!(back.as_bool());

    let v = FlagValue::String("hello there".to_string());
    let mut back = FlagValue::String(String::new());
    assert!(back.parse_and_set(&v.to_text()).is_ok());
    assert_eq!(back.as_string(), "hello there");

    let cases_f64: [f64; 4] = [1.5, -0.25, 1.0e300, 3.0];
    for x in cases_f64 {
        let v = FlagValue::Float64(serde_json::Number::from_f64(x).unwrap());
        let text = v.to_text();
        let mut back = FlagValue::Float64(serde_json::Number::from_f64(0.0).unwrap());
        assert!(back.parse_and_set(&text).is_ok());
        assert_eq!(back.as_f64().as_f64().unwrap(), x);
    }
}

#[test]
fn rendered_texts() {
    assert_eq!(FlagValue::Int64(-42).to_text(), "-42");
    assert_eq!(
        FlagValue::Int128(i128::MIN).to_text(),
        "-170141183460469231731687303715884105728"
    );
    assert_eq!(FlagValue::Bool(false).to_text(), "false");
    assert_eq!(FlagValue::Float64(serde_json::Number::from_f64(1.5).unwrap()).to_text(), "1.5");
    assert_eq!(FlagValue::Int64Array(vec![1, 2, 3]).to_text(), "[1, 2, 3]");
    assert_eq!(
        FlagValue::StringArray(vec!["a".to_string(), "b".to_string()]).to_text(),
        "[a, b]"
    );
    assert_eq!(FlagValue::StringArray(vec![]).to_text(), "[]");
}

#[test]
fn clear_and_set_true() {
    let mut v = FlagValue::Int64Array(vec![5, 6]);
    v.clear();
    assert_eq!(v.as_vec_i64(), Vec::<i64>::new());
    let mut v = FlagValue::Int64(7);
    v.clear();
    assert_eq!(v.as_i64(), 7);
    let mut v = FlagValue::Bool(false);
    v.set_true();
    assert!(v.as_bool());
    assert!(FlagValue::Int64Array(vec![]).is_vec());
    assert!(!FlagValue::Int64(0).is_vec());
}
