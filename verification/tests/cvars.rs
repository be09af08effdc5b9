use snowfall::cvars::{format_i32, parse_i32, CVarRegistry, CVarValue};

fn int_of(v: Option<&CVarValue>) -> Option<i32> {
    match v {
        Some(CVarValue::Int32(i)) => Some(*i),
        _ => None,
    }
}

#[test]
fn valid_names() {
    assert!(CVarRegistry::is_valid_name("player_speed"));
    assert!(CVarRegistry::is_valid_name("a.b_c9"));
    assert!(CVarRegistry::is_valid_name("Z"));
    assert!(!CVarRegistry::is_valid_name(""));
    assert!(CVarRegistry::is_valid_name("_hidden"));
    assert!(CVarRegistry::is_valid_name("_"));
    assert!(CVarRegistry::is_valid_name("mouse.sensitivity"));
    assert!(!CVarRegistry::is_valid_name("a-b"));
    assert!(!CVarRegistry::is_valid_name("9lives"));
    assert!(!CVarRegistry::is_valid_name("with space"));
    assert!(!CVarRegistry::is_valid_name("dash-ed"));
    assert!(!CVarRegistry::is_valid_name("é"));
}

#[test]
fn init_then_get_reads_back() {
    let mut r = CVarRegistry::new();
    assert_eq!(r.init("health", CVarValue::Int32(100)), Ok(()));
    assert_eq!(int_of(r.get("health")), Some(100));
    assert!(r.contains("health"));
    assert!(!r.contains("mana"));
    assert!(r.get("mana").is_none());
}

#[test]
fn init_rejects_invalid_name() {
    let mut r = CVarRegistry::new();
    assert_eq!(r.init("1abc", CVarValue::Int32(1)), Err("Invalid variable name: 1abc".to_string()));
    assert!(r.list().is_empty());
}

#[test]
fn init_accepts_underscore_first() {
    let mut r = CVarRegistry::new();
    assert_eq!(r.init("_private", CVarValue::Int32(1)), Ok(()));
    assert!(r.contains("_private"));
}

#[test]
fn init_rejects_existing_name() {
    let mut r = CVarRegistry::new();
    r.init("speed", CVarValue::Int32(1)).unwrap();
    assert_eq!(r.init("speed", CVarValue::Int32(2)), Err("Variable already exists: speed".to_string()));
    assert_eq!(int_of(r.get("speed")), Some(1));
}

#[test]
fn set_changes_value_of_same_kind() {
    let mut r = CVarRegistry::new();
    r.init("speed", CVarValue::Int32(1)).unwrap();
    assert_eq!(r.set("speed", CVarValue::Int32(7)), Ok(()));
    assert_eq!(int_of(r.get("speed")), Some(7));
}

#[test]
fn set_rejects_missing_variable() {
    let mut r = CVarRegistry::new();
    assert_eq!(r.set("ghost", CVarValue::Int32(7)), Err("Variable does not exist: ghost".to_string()));
    assert!(!r.contains("ghost"));
}

#[test]
fn set_rejects_kind_change() {
    let mut r = CVarRegistry::new();
    r.init("speed", CVarValue::F32(1.5f32.to_bits())).unwrap();
    assert_eq!(
        r.set("speed", CVarValue::Int32(3)),
        Err("Type mismatch for variable 'speed': cannot change from Discriminant(0) to Discriminant(1)".to_string())
    );
    r.init("name", CVarValue::String("bob".to_string())).unwrap();
    assert_eq!(
        r.set("name", CVarValue::F32(0)),
        Err("Type mismatch for variable 'name': cannot change from Discriminant(2) to Discriminant(0)".to_string())
    );
    match r.get("speed") {
        Some(CVarValue::F32(b)) => assert_eq!(f32::from_bits(*b), 1.5),
        _ => panic!("speed lost its value"),
    }
}

#[test]
fn list_is_sorted_by_name() {
    let mut r = CVarRegistry::default();
    r.init("zeta", CVarValue::Int32(1)).unwrap();
    r.init("alpha", CVarValue::String("x".to_string())).unwrap();
    r.init("Mid", CVarValue::Int32(3)).unwrap();
    let names: Vec<String> = r.list().into_iter().map(|(n, _)| n).collect();
    assert_eq!(names, vec!["Mid", "alpha", "zeta"]);
}

#[test]
fn string_values_round_trip() {
    let mut r = CVarRegistry::new();
    r.init("greeting", CVarValue::String("hi".to_string())).unwrap();
    r.set("greeting", CVarValue::String("hello".to_string())).unwrap();
    match r.get("greeting") {
        Some(CVarValue::String(s)) => assert_eq!(s, "hello"),
        _ => panic!("wrong value"),
    }
}

#[test]
fn duplicate_copies_value() {
    let v = CVarValue::String("abc".to_string());
    match v.duplicate() {
        CVarValue::String(s) => assert_eq!(s, "abc"),
        _ => panic!("wrong kind"),
    }
}

#[test]
fn integer_text_like_std() {
    for t in ["0", "42", "-7", "+15", "007", "2147483647", "-2147483648", "2147483648", "-2147483649",
              "", "-", "+", "1a", " 1", "--1", "1.5", "\u{663}"] {
        assert_eq!(parse_i32(t), t.parse::<i32>().ok(), "parsing {:?}", t);
    }
    for v in [0, 5, 10, -1, 1234567, i32::MAX, i32::MIN] {
        assert_eq!(format_i32(v), v.to_string());
    }
}
