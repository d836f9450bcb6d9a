//! Placeholders in templates.
use std::collections::HashMap;

use lpr_router::template::{render_env_template_with, validate_env_name};

#[test]
fn replaces_single_placeholder() {
    let env = HashMap::from([("NAME".to_string(), "world".to_string())]);
    let out = render_env_template_with("hello ${NAME}", |k| env.get(k).cloned()).unwrap();
    assert_eq!(out, "hello world");
}

#[test]
fn replaces_multiple_placeholders() {
    let env = HashMap::from([
        ("A".to_string(), "1".to_string()),
        ("B".to_string(), "2".to_string()),
    ]);
    let out = render_env_template_with("${A}-${B}", |k| env.get(k).cloned()).unwrap();
    assert_eq!(out, "1-2");
}

#[test]
fn missing_placeholder_is_an_error() {
    let env = HashMap::<String, String>::new();
    assert!(render_env_template_with("${MISSING}", |k| env.get(k).cloned()).is_err());
}

#[test]
fn invalid_placeholder_name_is_an_error() {
    let env = HashMap::from([("X".to_string(), "ok".to_string())]);
    assert!(render_env_template_with("${123}", |k| env.get(k).cloned()).is_err());
    assert!(render_env_template_with("${X-Y}", |k| env.get(k).cloned()).is_err());
}

#[test]
fn unterminated_placeholder_is_an_error() {
    let env = HashMap::<String, String>::new();
    assert!(render_env_template_with("${X", |k| env.get(k).cloned()).is_err());
}

#[test]
fn errors_say_what_is_wrong() {
    let none = |_: &str| -> Option<String> { None };
    let err = |s: &str| render_env_template_with(s, none).unwrap_err();
    assert_eq!(err("${MISSING} ${"), "missing environment variable: MISSING");
    assert_eq!(err("a ${X"), "unterminated placeholder");
    assert_eq!(err("${}"), "empty placeholder name");
    assert_eq!(err("${1}"), "invalid placeholder name: 1");
    assert_eq!(validate_env_name("_a9"), Ok(()));
    assert_eq!(validate_env_name("é"), Err("invalid placeholder name: é".to_string()));
}

#[test]
fn other_text_stays_as_it_is() {
    let env = |k: &str| Some(format!("<{k}>"));
    let render = |s: &str| render_env_template_with(s, env).unwrap();
    assert_eq!(render(""), "");
    assert_eq!(render("$ { } $$ é 漢 $X"), "$ { } $$ é 漢 $X");
    assert_eq!(render("$${A}$"), "$<A>$");
    assert_eq!(render("${A}${A}"), "<A><A>");
}

#[test]
fn only_placeholder_names_are_looked_up() {
    let names_of = |template: &str| {
        let mut names = vec![];
        let _ = render_env_template_with(template, |k| {
            names.push(k.to_string());
            if k == "NONE" { None } else { Some(format!("${{{k}}}")) }
        });
        names
    };
    assert_eq!(names_of("${B} $X {Y} ${A}${B}"), vec!["B", "A", "B"]);
    assert_eq!(names_of("${A} ${NONE} ${B}"), vec!["A", "NONE"]);
    assert_eq!(names_of("${A} ${1} ${B}"), vec!["A"]);
    assert_eq!(names_of("${A} ${B"), vec!["A"]);
}
