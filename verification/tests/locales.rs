use xous_prefs::codegen::generate_code;
use xous_prefs::generate_locales;
use xous_prefs::locales::LocaleError;
use xous_prefs::placeholders::extract_vars;
use xous_prefs::translations::Translations;

fn strings(v: &[&str]) -> Vec<String> {
    v.iter().map(|s| s.to_string()).collect()
}

fn table(entries: &[(&str, &[(&str, &str)])]) -> Translations {
    Translations {
        entries: entries
            .iter()
            .map(|(k, langs)| {
                (
                    k.to_string(),
                    langs.iter().map(|(l, t)| (l.to_string(), t.to_string())).collect(),
                )
            })
            .collect(),
    }
}

#[test]
fn placeholders_are_sorted() {
    assert_eq!(
        extract_vars("Hello $name, you have $count messages"),
        strings(&["$count", "$name"])
    );
}

#[test]
fn placeholders_keep_duplicates() {
    assert_eq!(extract_vars("$x and $x"), strings(&["$x", "$x"]));
}

#[test]
fn placeholders_edge_cases() {
    assert_eq!(extract_vars("no vars here"), Vec::<String>::new());
    assert_eq!(extract_vars("$ x"), Vec::<String>::new());
    assert_eq!(extract_vars("$a$b"), strings(&["$a", "$b"]));
    assert_eq!(extract_vars("price $$5"), strings(&["$5"]));
    assert_eq!(extract_vars("$first-name_2!"), strings(&["$first-name_2"]));
    assert_eq!(extract_vars("€ $été"), Vec::<String>::new());
}

const PLAIN: &str = "# [macro_export] macro_rules ! t { (\"k\" , $ lang : expr) => { match $ lang . as_ref () { \"en\" => \"Hello\" , \"fr\" => \"Bonjour\" , e => panic ! (\"Missing language: {}\" , e) } } ; ($ key : expr , $ lang : expr) => { compile_error ! (\"Missing translation\") ; } }";

const INTERPOLATED: &str = "# [macro_export] macro_rules ! t { (\"greet\" , a : $ a : expr , name : $ name : expr , $ lang : expr) => { match $ lang . as_ref () { \"en\" => \"Hi $name $a\" . replace (\"$a\" , $ a) . replace (\"$name\" , $ name) , e => panic ! (\"Missing language: {}\" , e) } } ; (\"greet\" , $ ($ e : tt) *) => { compile_error ! (stringify ! (Please provide : a , name >> The order matters !)) ; } ; ($ key : expr , $ lang : expr) => { compile_error ! (\"Missing translation\") ; } }";

#[test]
fn plain_key_arm() {
    let t = table(&[("k", &[("en", "Hello"), ("fr", "Bonjour")])]);
    assert_eq!(generate_code(&t), PLAIN);
}

#[test]
fn interpolated_key_arms() {
    let t = table(&[("greet", &[("en", "Hi $name $a")])]);
    assert_eq!(generate_code(&t), INTERPOLATED);
}

#[test]
fn empty_table_has_only_fallback_arm() {
    let t = Translations::new();
    assert_eq!(
        generate_code(&t),
        "# [macro_export] macro_rules ! t { ($ key : expr , $ lang : expr) => { compile_error ! (\"Missing translation\") ; } }"
    );
}

#[test]
fn literals_are_escaped() {
    let t = table(&[("q", &[("en", "say \"hi\"\n")])]);
    let code = generate_code(&t);
    assert!(code.contains("\"en\" => \"say \\\"hi\\\"\\n\" ,"));
}

#[test]
fn interpolation_decided_by_last_language() {
    let t = table(&[("k", &[("en", "Hi $n"), ("fr", "Salut")])]);
    let code = generate_code(&t);
    assert!(code.contains("(\"k\" , $ lang : expr) =>"));
    assert!(code.contains("\"en\" => \"Hi $n\" . replace (\"$n\" , $ n) ,"));
}

#[test]
fn generated_code_is_token_stream_text() {
    let t = table(&[
        ("greet", &[("en", "Hi $name $a"), ("de", "Hallo $name $a")]),
        ("k", &[("en", "Hello")]),
    ]);
    let code = generate_code(&t);
    let tokens: proc_macro2::TokenStream = code.parse().unwrap();
    assert_eq!(tokens.to_string(), code);
}

#[test]
fn generate_from_files() {
    let files = strings(&[
        r#"{"a": {"en": "A1"}, "b": {"en": "B1"}}"#,
        r#"{"a": {"en": "A2", "fr": "A2fr"}}"#,
    ]);
    let code = generate_locales(&files).unwrap();
    let expected = generate_code(&table(&[
        ("a", &[("en", "A2"), ("fr", "A2fr")]),
        ("b", &[("en", "B1")]),
    ]));
    assert_eq!(code, expected);
}

#[test]
fn later_files_override_whole_keys() {
    let files = strings(&[
        r#"{"a": {"en": "A1", "de": "A1de"}}"#,
        r#"{"a": {"en": "A2"}}"#,
    ]);
    let code = generate_locales(&files).unwrap();
    assert!(!code.contains("A1de"));
    assert!(code.contains("\"en\" => \"A2\""));
}

#[test]
fn bad_json_is_rejected() {
    let files = strings(&[r#"{"a": {"en": 5}}"#]);
    assert!(matches!(generate_locales(&files), Err(LocaleError::Parse(_))));
    let files = strings(&["not json"]);
    assert!(matches!(generate_locales(&files), Err(LocaleError::Parse(_))));
}

#[test]
fn invalid_placeholder_is_rejected() {
    let files = strings(&[r#"{"a": {"en": "take $1st"}}"#]);
    assert!(matches!(generate_locales(&files), Err(LocaleError::InvalidPlaceholder)));
    let files = strings(&[r#"{"a": {"en": "hi $first-name"}}"#]);
    assert!(matches!(generate_locales(&files), Err(LocaleError::InvalidPlaceholder)));
}

#[test]
fn no_files_give_fallback_only() {
    let code = generate_locales(&Vec::new()).unwrap();
    assert_eq!(code, generate_code(&Translations::new()));
}

#[test]
fn merge_puts_new_keys_last() {
    let mut t = table(&[("a", &[("en", "1")]), ("b", &[("en", "2")])]);
    t.merge(vec![
        ("c".to_string(), vec![("en".to_string(), "3".to_string())]),
        ("a".to_string(), vec![("en".to_string(), "4".to_string())]),
    ]);
    let keys: Vec<&str> = t.entries.iter().map(|e| e.0.as_str()).collect();
    assert_eq!(keys, vec!["a", "b", "c"]);
    assert_eq!(t.entries[0].1[0].1, "4");
}

#[test]
fn arguments_are_sorted_and_unique_across_languages() {
    let t = table(&[("k", &[("en", "$b $a"), ("de", "$a $b $a")])]);
    let code = generate_code(&t);
    assert!(code.contains("(\"k\" , a : $ a : expr , b : $ b : expr , $ lang : expr) =>"));
    assert!(code.contains("Please provide : a , b >> The order matters !"));
    assert!(code.contains("\"de\" => \"$a $b $a\" . replace (\"$a\" , $ a) . replace (\"$a\" , $ a) . replace (\"$b\" , $ b) ,"));
}

#[test]
fn one_arm_per_language_in_order() {
    let t = table(&[("k", &[("en", "A"), ("de", "B"), ("fr", "C")])]);
    let code = generate_code(&t);
    assert!(code.contains("{ \"en\" => \"A\" , \"de\" => \"B\" , \"fr\" => \"C\" , e => panic !"));
}
