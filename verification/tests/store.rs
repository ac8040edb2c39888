use sciurus::config::{Config, FileRead, JsonConfig, JsonConfigError};
use sciurus::value::{Number, Value};

fn number(x: f64) -> Number {
    let n = json::number::Number::from(x);
    if n.is_nan() {
        Number::NaN
    } else {
        let (positive, mantissa, exponent) = n.as_parts();
        Number::Finite { positive, mantissa, exponent }
    }
}

fn float(n: Number) -> f64 {
    match n {
        Number::NaN => f64::NAN,
        Number::Finite { positive, mantissa, exponent } => {
            f64::from(json::number::Number::from_parts(positive, mantissa, exponent))
        }
    }
}

fn reload(text: String, auto_save: bool) -> JsonConfig {
    let mut config = JsonConfig::new("test.json", auto_save);
    config.load(FileRead::Contents(text)).unwrap();
    config
}

#[test]
fn test() {
    let path = "test.json";
    let saved;
    {
        let mut config = JsonConfig::new(path, false);
        config.set("foo", Value::from("value"));
        config.set("hoge.piyo", Value::from("test"));
        config.set("hoge.pi", Value::Number(number(std::f64::consts::PI)));
        config.set("hoge.flag0", Value::from(true));
        config.set("hoge.flag1", Value::from(false));
        config.set("hoge.raw", Value::from(b"Hello World" as &[u8]));
        assert_eq!("value", config.get_str("foo").unwrap());
        assert_eq!("test", config.get_str("hoge.piyo").unwrap());
        assert_eq!(std::f64::consts::PI, float(config.get_f64("hoge.pi").unwrap()));
        assert_eq!(true, config.get_bool("hoge.flag0").unwrap());
        assert_eq!(false, config.get_bool("hoge.flag1").unwrap());
        assert_eq!(b"Hello World".to_vec(), config.get_bytes("hoge.raw").unwrap());
        assert!(config.get("foobar").is_none());
        saved = config.save().unwrap();
    }
    let saved_again;
    {
        let mut config = reload(saved, true);
        assert_eq!("value", config.get_str("foo").unwrap());
        assert_eq!("test", config.get_str("hoge.piyo").unwrap());
        assert_eq!(std::f64::consts::PI, float(config.get_f64("hoge.pi").unwrap()));
        assert_eq!(true, config.get_bool("hoge.flag0").unwrap());
        assert_eq!(false, config.get_bool("hoge.flag1").unwrap());
        assert_eq!(b"Hello World".to_vec(), config.get_bytes("hoge.raw").unwrap());
        assert!(config.get("foobar").is_none());
        assert!(config.set("hoge.piyo", Value::from("bar")));
        assert!(config.set("test", Value::from("helloworld")));
        saved_again = config.save().unwrap();
    }
    {
        let mut config = reload(saved_again, true);
        assert_eq!("value", config.get_str("foo").unwrap());
        assert_eq!("bar", config.get_str("hoge.piyo").unwrap());
        assert_eq!("helloworld", config.get_str("test").unwrap());
        assert!(config.delete("test"));
        assert!(config.get("test").is_none());
    }
    {
        assert!(JsonConfig::new("notfound.json", false).load(FileRead::Missing).is_ok());
        let broken = FileRead::Contents("{\"broken\": \"json".to_string());
        assert!(JsonConfig::new(path, false).load(broken).is_err());
    }
}

#[test]
fn set_then_get_gives_the_value_back() {
    let mut config = JsonConfig::new("c.json", false);
    let values = vec![
        Value::String("plain".to_string()),
        Value::String(String::new()),
        Value::Number(Number::Finite { positive: false, mantissa: 15, exponent: -1 }),
        Value::Number(Number::NaN),
        Value::Bool(true),
        Value::Bool(false),
        Value::Bytes(vec![0, 1, 2, 253, 254, 255]),
        Value::Bytes(Vec::new()),
    ];
    for (i, value) in values.into_iter().enumerate() {
        let key = format!("section.item{}", i);
        assert!(!config.set(&key, value.clone()));
        assert_eq!(Some(value), config.get(&key));
    }
}

#[test]
fn null_is_read_as_no_value() {
    let mut config = JsonConfig::new("c.json", false);
    config.set("a", Value::from("x"));
    config.set("a", Value::Null);
    assert_eq!(None, config.get("a"));
    assert_eq!("{\n    \"a\": null\n}", config.save().unwrap());
}

#[test]
fn a_string_in_the_form_of_bytes_is_read_as_bytes() {
    let mut config = JsonConfig::new("c.json", false);
    config.set("a", Value::from("base64:SGVsbG8gV29ybGQ="));
    assert_eq!(Some(Value::Bytes(b"Hello World".to_vec())), config.get("a"));
    assert_eq!(None, config.get_str("a"));
    config.set("b", Value::from("base64:not base64!"));
    assert_eq!(Some(Value::String("base64:not base64!".to_string())), config.get("b"));
    config.set("c", Value::from("base64"));
    assert_eq!(Some(Value::String("base64".to_string())), config.get("c"));
    config.set("d", Value::from("base64:"));
    assert_eq!(Some(Value::Bytes(Vec::new())), config.get("d"));
}

#[test]
fn bytes_are_kept_as_marked_base64() {
    let mut config = JsonConfig::new("c.json", false);
    config.set("raw", Value::Bytes(b"Hello World".to_vec()));
    assert_eq!("{\n    \"raw\": \"base64:SGVsbG8gV29ybGQ=\"\n}", config.save().unwrap());
}

#[test]
fn get_on_a_path_never_written_gives_none() {
    let mut config = JsonConfig::new("c.json", false);
    assert_eq!(None, config.get("a"));
    assert_eq!(None, config.get("a.b.c"));
    assert_eq!(None, config.get(""));
    config.set("a.b", Value::from(true));
    assert_eq!(None, config.get("a.c"));
    assert_eq!(None, config.get("b"));
    assert_eq!(None, config.get("a.b.c"));
}

#[test]
fn nested_set_makes_the_objects_on_the_way() {
    let mut config = JsonConfig::new("c.json", false);
    config.set("a.b.c", Value::Number(number(1.0)));
    assert_eq!(Some(1.0), config.get_f64("a.b.c").map(float));
    assert_eq!(None, config.get("a.b"));
    assert_eq!(None, config.get("a"));
    assert_eq!(
        "{\n    \"a\": {\n        \"b\": {\n            \"c\": 1\n        }\n    }\n}",
        config.save().unwrap()
    );
}

#[test]
fn set_through_a_scalar_replaces_it_by_an_object() {
    let mut config = JsonConfig::new("c.json", false);
    config.set("a", Value::from(5u64));
    config.set("a.b", Value::from(true));
    assert_eq!(None, config.get("a"));
    assert_eq!(Some(true), config.get_bool("a.b"));
    assert_eq!("{\n    \"a\": {\n        \"b\": true\n    }\n}", config.save().unwrap());
}

#[test]
fn set_keeps_the_place_of_a_field() {
    let mut config = JsonConfig::new("c.json", false);
    config.set("x", Value::from(1u64));
    config.set("y", Value::from(2u64));
    config.set("x", Value::from(3u64));
    assert_eq!("{\n    \"x\": 3,\n    \"y\": 2\n}", config.save().unwrap());
}

#[test]
fn delete_removes_the_value() {
    let mut config = JsonConfig::new("c.json", false);
    config.set("x", Value::from("y"));
    assert!(!config.delete("x"));
    assert_eq!(None, config.get("x"));
    assert_eq!("{}", config.save().unwrap());
}

#[test]
fn delete_of_a_missing_key_changes_nothing() {
    let mut config = JsonConfig::new("c.json", false);
    config.set("a.b", Value::from("kept"));
    let before = config.save().unwrap();
    config.delete("never");
    config.delete("a.never");
    assert_eq!(before, config.save().unwrap());
    assert_eq!("kept", config.get_str("a.b").unwrap());
}

#[test]
fn delete_under_a_scalar_leaves_the_scalar() {
    let mut config = JsonConfig::new("t.json", false);
    config.set("a", Value::from("s"));
    config.set("n", Value::from(5u64));
    config.set("o.z", Value::Null);
    let before = config.save().unwrap();
    config.delete("a.b");
    assert_eq!(Some("s".to_string()), config.get_str("a"));
    assert!(config.get("a.b").is_none());
    config.delete("n.x.y");
    config.delete("o.z.w");
    assert_eq!(Some(Number::Finite { positive: true, mantissa: 5, exponent: 0 }), config.get_f64("n"));
    assert_eq!(before, config.save().unwrap());
}

#[test]
fn delete_of_a_path_never_set_changes_no_get() {
    let mut config = JsonConfig::new("t.json", false);
    config.set("a", Value::from("s"));
    config.set("o.p", Value::from(true));
    let keys = ["a", "a.b", "o", "o.p", "o.q", "o.q.r", "m", "m.n", "m.n.o", ""];
    for gone in ["a.b", "o.q", "o.q.r", "m", "m.n.o", "", "a.b.c"] {
        let before: Vec<Option<Value>> = keys.iter().map(|k| config.get(k)).collect();
        config.delete(gone);
        let after: Vec<Option<Value>> = keys.iter().map(|k| config.get(k)).collect();
        assert_eq!(before, after);
    }
}

#[test]
fn a_long_string_of_digits_is_saved_and_loaded() {
    let digits = "1234567890".repeat(4000);
    let mut config = JsonConfig::new("t.json", false);
    config.set("s", Value::String(digits.clone()));
    config.set(&digits, Value::from(true));
    let loaded = reload(config.save().unwrap(), false);
    assert_eq!(Some(digits.clone()), loaded.get_str("s"));
    assert_eq!(Some(true), loaded.get_bool(&digits));
}

#[test]
fn a_loaded_store_gives_the_values_of_the_saved_one() {
    let mut config = JsonConfig::new("t.json", false);
    config.set("s", Value::from("text"));
    config.set("o.b", Value::from(false));
    config.set("o.raw", Value::Bytes(vec![0, 159, 146, 150]));
    config.set("o.n", Value::Number(Number::Finite { positive: true, mantissa: 1500, exponent: -3 }));
    config.set("o.i", Value::from(-42i64));
    config.set("o.null", Value::Null);
    let loaded = reload(config.save().unwrap(), true);
    for key in ["s", "o.b", "o.raw", "o.i", "o.null", "o", "missing", "s.t"] {
        assert_eq!(config.get(key), loaded.get(key));
    }
    assert_eq!(
        Some(Value::Number(Number::Finite { positive: true, mantissa: 15, exponent: -1 })),
        loaded.get("o.n")
    );
    assert_eq!(config.save(), loaded.save());
}

#[test]
fn other_keys_keep_their_values() {
    let mut config = JsonConfig::new("t.json", false);
    config.set("a.b", Value::from("kept"));
    config.set("c", Value::from(true));
    config.set("a.x.y", Value::from(1u64));
    config.set("d", Value::from("new"));
    config.delete("a.x");
    config.delete("c.e");
    assert_eq!(Some("kept".to_string()), config.get_str("a.b"));
    assert_eq!(Some(true), config.get_bool("c"));
    assert_eq!(Some("new".to_string()), config.get_str("d"));
}

#[test]
fn delete_makes_the_way_to_the_parent() {
    let mut config = JsonConfig::new("c.json", false);
    config.delete("a.b.c");
    assert_eq!(None, config.get("a.b.c"));
    assert_eq!("{\n    \"a\": {\n        \"b\": {}\n    }\n}", config.save().unwrap());
}

#[test]
fn delete_keeps_the_order_of_the_others() {
    let mut config = JsonConfig::new("c.json", false);
    config.set("x", Value::from(1u64));
    config.set("y", Value::from(2u64));
    config.set("z", Value::from(3u64));
    config.delete("y");
    assert_eq!("{\n    \"x\": 1,\n    \"z\": 3\n}", config.save().unwrap());
}

#[test]
fn typed_getters_do_not_convert() {
    let mut config = JsonConfig::new("c.json", false);
    config.set("flag", Value::from(true));
    config.set("count", Value::from(7u64));
    config.set("name", Value::from("seven"));
    config.set("raw", Value::Bytes(vec![7]));
    assert_eq!(None, config.get_f64("flag"));
    assert_eq!(None, config.get_str("flag"));
    assert_eq!(None, config.get_bytes("flag"));
    assert_eq!(None, config.get_bool("count"));
    assert_eq!(None, config.get_str("count"));
    assert_eq!(None, config.get_bool("name"));
    assert_eq!(None, config.get_bytes("name"));
    assert_eq!(None, config.get_str("raw"));
    assert_eq!(Some(vec![7u8]), config.get_bytes("raw"));
    assert_eq!(Some(7.0), config.get_f64("count").map(float));
}

#[test]
fn new_store_is_empty_and_remembers_its_file() {
    let config = JsonConfig::new("dir/config.json", true);
    assert_eq!("dir/config.json", config.path());
    assert!(config.auto_save());
    assert_eq!("{}", config.save().unwrap());
    assert!(!JsonConfig::new("x", false).auto_save());
}

#[test]
fn load_of_a_missing_file_leaves_the_store_as_it_is() {
    let mut config = JsonConfig::new("notfound.json", false);
    assert!(config.load(FileRead::Missing).is_ok());
    assert_eq!("{}", config.save().unwrap());
    config.set("a", Value::from(true));
    assert!(config.load(FileRead::Missing).is_ok());
    assert_eq!(Some(true), config.get_bool("a"));
}

#[test]
fn load_of_broken_text_is_a_parse_error_and_changes_nothing() {
    let mut config = JsonConfig::new("c.json", false);
    config.set("a", Value::from(true));
    let res = config.load(FileRead::Contents("{\"broken\": \"json".to_string()));
    assert!(matches!(res, Err(JsonConfigError::Parse(json::Error::UnexpectedEndOfJson))));
    assert_eq!(Some(true), config.get_bool("a"));
}

#[test]
fn load_of_text_that_is_no_object_is_a_parse_error() {
    for text in ["[1, 2]", "\"text\"", "3", "true", "null"] {
        let mut config = JsonConfig::new("c.json", false);
        config.set("a", Value::from(true));
        let res = config.load(FileRead::Contents(text.to_string()));
        match res {
            Err(JsonConfigError::Parse(json::Error::WrongType(what))) => {
                assert_eq!("not object", what)
            }
            other => panic!("{:?}", other),
        }
        assert_eq!(Some(true), config.get_bool("a"));
    }
}

#[test]
fn load_of_an_unreadable_file_is_an_io_error() {
    let mut config = JsonConfig::new("c.json", false);
    config.set("a", Value::from(true));
    let failure = std::io::Error::new(std::io::ErrorKind::PermissionDenied, "denied");
    match config.load(FileRead::Failed(failure)) {
        Err(JsonConfigError::Io(e)) => assert_eq!(std::io::ErrorKind::PermissionDenied, e.kind()),
        other => panic!("{:?}", other),
    }
    assert_eq!(Some(true), config.get_bool("a"));
}

#[test]
fn load_replaces_what_was_there() {
    let mut config = JsonConfig::new("c.json", false);
    config.set("old", Value::from(true));
    let text = "{\"new\": {\"n\": 1.50, \"s\": \"x\", \"list\": [1, {\"k\": null}], \"none\": null}}";
    config.load(FileRead::Contents(text.to_string())).unwrap();
    assert_eq!(None, config.get("old"));
    assert_eq!(Some(1.5), config.get_f64("new.n").map(float));
    assert_eq!("x", config.get_str("new.s").unwrap());
    assert_eq!(None, config.get("new.list"));
    assert_eq!(None, config.get("new.none"));
    assert_eq!(
        "{\n    \"new\": {\n        \"n\": 1.5,\n        \"s\": \"x\",\n        \"list\": [\n            1,\n            {\n                \"k\": null\n            }\n        ],\n        \"none\": null\n    }\n}",
        config.save().unwrap()
    );
}

#[test]
fn load_keeps_the_last_of_two_fields_of_one_name() {
    let mut config = JsonConfig::new("c.json", false);
    config.load(FileRead::Contents("{\"a\": 1, \"b\": 2, \"a\": 3}".to_string())).unwrap();
    assert_eq!(Some(3.0), config.get_f64("a").map(float));
    assert_eq!("{\n    \"a\": 3,\n    \"b\": 2\n}", config.save().unwrap());
}

#[test]
fn auto_save_is_reported_by_every_change() {
    let mut config = JsonConfig::new("c.json", true);
    assert!(config.set("a.b", Value::from("v")));
    let seen = reload(config.save().unwrap(), false);
    assert_eq!("v", seen.get_str("a.b").unwrap());
    assert!(config.delete("a.b"));
    let seen = reload(config.save().unwrap(), false);
    assert_eq!(None, seen.get("a.b"));
}

#[test]
fn numbers_are_written_without_the_zeros_that_end_a_fraction() {
    let mut config = JsonConfig::new("c.json", false);
    config.set("n", Value::Number(Number::Finite { positive: true, mantissa: 1500, exponent: -3 }));
    config.set("m", Value::Number(Number::Finite { positive: false, mantissa: 25, exponent: 2 }));
    config.set("z", Value::Number(Number::Finite { positive: true, mantissa: 0, exponent: -4 }));
    config.set("nan", Value::Number(Number::NaN));
    assert_eq!(
        "{\n    \"n\": 1.5,\n    \"m\": -2500,\n    \"z\": 0,\n    \"nan\": null\n}",
        config.save().unwrap()
    );
    assert_eq!(
        Some(Number::Finite { positive: true, mantissa: 1500, exponent: -3 }),
        config.get_f64("n")
    );
}

#[test]
fn a_nested_document_is_written_level_by_level() {
    let mut key = String::from("k");
    for _ in 0..40 {
        key.push_str(".k");
    }
    let mut config = JsonConfig::new("c.json", false);
    config.set(&key, Value::from(true));
    let text = config.save().unwrap();
    assert_eq!(83, text.lines().count());
    assert!(text.contains(&format!("\n{}\"k\": true\n", " ".repeat(41 * 4))));
    assert_eq!(Some(true), reload(text, false).get_bool(&key));
}

#[test]
fn values_are_made_from_plain_ones() {
    assert_eq!(Value::Bool(true), Value::from(true));
    assert_eq!(Value::String("s".to_string()), Value::from("s"));
    assert_eq!(Value::String("s".to_string()), Value::from("s".to_string()));
    assert_eq!(Value::String("s".to_string()), Value::from(&"s".to_string()));
    assert_eq!(Value::Bytes(vec![1, 2]), Value::from(&[1u8, 2u8][..]));
    assert_eq!(
        Value::Number(Number::Finite { positive: true, mantissa: 42, exponent: 0 }),
        Value::from(42u64)
    );
    assert_eq!(
        Value::Number(Number::Finite { positive: false, mantissa: 42, exponent: 0 }),
        Value::from(-42i64)
    );
    assert_eq!(
        Value::Number(Number::Finite { positive: false, mantissa: 1 << 63, exponent: 0 }),
        Value::from(i64::MIN)
    );
    assert_eq!(
        Value::Number(Number::Finite { positive: true, mantissa: 0, exponent: 0 }),
        Value::from(0i64)
    );
}
