use mosa::mosa_fs::{module_directory, module_file};
use mosa::opts::{checked_options, parse_option, parseopts, OptType, OptValue};

fn texts(list: &[&str]) -> Vec<String> {
    list.iter().map(|s| s.to_string()).collect()
}

#[test]
fn a_text_option_keeps_what_follows_its_first_equals_sign() {
    let (name, value) = parse_option(&"-Smain=./input/main.mosa".to_string()).expect("an option");
    assert_eq!(name, "main");
    assert_eq!(value, OptValue::String("./input/main.mosa".to_string()));
    let (name, value) = parse_option(&"-Sexpr= a=b ".to_string()).expect("an option");
    assert_eq!(name, "expr");
    assert_eq!(value, OptValue::String(" a=b ".to_string()));
    let (name, value) = parse_option(&"xS=".to_string()).expect("an option");
    assert_eq!(name, "");
    assert_eq!(value, OptValue::String("".to_string()));
}

#[test]
fn a_boolean_option_spells_true_or_false() {
    let (name, value) = parse_option(&"-Bdebug=true".to_string()).expect("an option");
    assert_eq!(name, "debug");
    assert_eq!(value, OptValue::BOOL(true));
    let (_, value) = parse_option(&"-Bdebug= \tfalse\n".to_string()).expect("an option");
    assert_eq!(value, OptValue::BOOL(false));
    let (_, value) = parse_option(&"-Bdebug=  true ".to_string()).expect("an option");
    assert_eq!(value, OptValue::BOOL(true));
    assert!(parse_option(&"-Bdebug=yes".to_string()).is_none());
    assert!(parse_option(&"-Bdebug=True".to_string()).is_none());
    assert!(parse_option(&"-Bdebug=".to_string()).is_none());
}

#[test]
fn what_is_no_option_is_refused() {
    for text in ["", "-", "-Xa=b", "-Sab", "=S", "-S", "\u{e9}Sa=b", "-s=a"] {
        assert!(parse_option(&text.to_string()).is_none(), "{text:?}");
    }
    assert!(checked_options(texts(&["-Sa=b", "-Xa=b"])).is_none());
    assert!(checked_options(texts(&["-Bflag=1"])).is_none());
}

#[test]
fn the_last_option_of_a_name_stays() {
    let opts = parseopts(texts(&["-Smain=a.mosa", "-Bfast=true", "-Smain=b.mosa"]));
    assert_eq!(opts.key_list(), texts(&["main", "fast"]));
    assert_eq!(opts.get(&"main".to_string()), Some(&OptValue::String("b.mosa".to_string())));
    assert_eq!(opts.get(&"fast".to_string()), Some(&OptValue::BOOL(true)));
    assert_eq!(opts.get(&"slow".to_string()), None);
    let opts = checked_options(texts(&["-Sworkdir=/tmp/", "-Sworkdir=/home/"])).expect("options");
    assert_eq!(opts.len(), 1);
    assert_eq!(opts.get(&"workdir".to_string()), Some(&OptValue::String("/home/".to_string())));
    assert_eq!(parseopts(vec![]).len(), 0);
}

#[test]
fn the_kinds_of_options() {
    assert_ne!(OptType::STRING, OptType::BOOL);
    assert_ne!(OptType::BOOL, OptType::UNKNOWN);
    assert_ne!(OptValue::UNKNOWN, OptValue::BOOL(false));
}

#[test]
fn a_module_is_in_the_file_of_its_path() {
    assert_eq!(module_file(&"math".to_string()), "math.mosa");
    assert_eq!(module_file(&"lib:std:io".to_string()), "lib/std/io.mosa");
    assert_eq!(module_file(&"".to_string()), ".mosa");
    assert_eq!(module_file(&"a::b/c".to_string()), "a//b/c.mosa");
}

#[test]
fn a_module_is_in_the_directory_before_its_last_part() {
    assert_eq!(module_directory(&"lib:std:io".to_string()), "lib/std/");
    assert_eq!(module_directory(&"lib:math".to_string()), "lib/");
    assert_eq!(module_directory(&"math".to_string()), "/");
    assert_eq!(module_directory(&"".to_string()), "/");
    assert_eq!(module_directory(&"a/b:c".to_string()), "a/b/");
    assert_eq!(module_directory(&"a:".to_string()), "a/");
}
