use unpanic::dep_handler::{args_row, parse_deps_line, split_at_spaces, split_words};
use unpanic::function_collectors::label_of;
use unpanic::model::{Frame, Label};
use unpanic::rustc_arg_handlers::{
    _get_externs, get_arg, get_dep_path, get_edition, get_externs, get_externs_from_args,
    get_externs_from_fs, is_compiled_lib, is_dependency, is_valid_out_dir,
    name_from_path_string, parse_edition, Edition, ExternFile,
};
use unpanic::text::{chars_of, contains, remove_matches, same_text, text_of};
use unpanic::utils::{log_allow_panic, log_panic_in_deny_block};

fn texts(items: &[&str]) -> Vec<String> {
    items.iter().map(|s| s.to_string()).collect()
}

#[test]
fn values_are_read_behind_the_first_equals_sign() {
    let args = texts(&["--edition=2021", "-L", "dependency=/p/target/debug/deps", "--edition="]);
    assert_eq!(get_arg(&args, "--edition="), vec!["2021".to_string()]);
    assert_eq!(get_arg(&args, "dependency"), vec!["/p/target/debug/deps".to_string()]);
    assert_eq!(get_dep_path(&args), "/p/target/debug/deps".to_string());
    let twice = texts(&["a=b=c"]);
    assert_eq!(get_arg(&twice, "a"), vec!["b".to_string()]);
}

#[test]
fn editions_are_the_three_known_ones() {
    assert_eq!(parse_edition("2015"), Some(Edition::Edition2015));
    assert_eq!(parse_edition("2018"), Some(Edition::Edition2018));
    assert_eq!(parse_edition("2021"), Some(Edition::Edition2021));
    assert_eq!(parse_edition("2024"), None);
    assert_eq!(get_edition(&texts(&["rustc", "--edition=2018"])), Edition::Edition2018);
}

#[test]
fn extern_values_follow_their_flag() {
    let args = texts(&["--extern", "a=/x/liba.rmeta", "-C", "--extern", "b=/x/libb.rlib"]);
    assert_eq!(
        _get_externs(&args),
        vec!["a=/x/liba.rmeta".to_string(), "b=/x/libb.rlib".to_string()]
    );
    assert_eq!(
        get_externs_from_args(&args),
        vec![
            ExternFile { name: "a".to_string(), path: "/x/liba.rmeta".to_string() },
            ExternFile { name: "b".to_string(), path: "/x/libb.rlib".to_string() },
        ]
    );
}

#[test]
fn compiled_files_name_their_units() {
    assert!(is_compiled_lib("libfoo-1a2b.rmeta"));
    assert!(is_compiled_lib("libmacro-1a2b.so"));
    assert!(!is_compiled_lib("foo-1a2b.d"));
    let files = texts(&["libfoo-1a2b.rmeta", "libbar_baz-77.so"]);
    assert_eq!(
        get_externs_from_fs("/p/deps", &files),
        vec![
            ExternFile { name: "foo".to_string(), path: "/p/deps/libfoo-1a2b.rmeta".to_string() },
            ExternFile {
                name: "bar_baz".to_string(),
                path: "/p/deps/libbar_baz-77.so".to_string()
            },
        ]
    );
    let args = texts(&["-L", "dependency=/p/deps", "--extern", "foo=/p/deps/libfoo-1a2b.rmeta"]);
    assert_eq!(get_externs(&args, &files), get_externs_from_fs("/p/deps", &files));
}

#[test]
fn unit_name_drops_three_bytes_whatever_the_characters() {
    assert_eq!(name_from_path_string(&"libabc".to_string()), "abc".to_string());
    assert_eq!(name_from_path_string(&"lib-x".to_string()), "".to_string());
    assert_eq!(name_from_path_string(&"\u{e9}aname-1".to_string()), "name".to_string());
    assert_eq!(name_from_path_string(&"\u{20ac}name".to_string()), "name".to_string());
}

#[test]
fn dependency_is_any_unit_but_the_target() {
    let args = texts(&["rustc", "--crate-name", "test2_lib", "src/lib.rs"]);
    assert!(!is_dependency(&args, "test2-lib"));
    assert!(!is_dependency(&args, "test2_lib"));
    assert!(is_dependency(&args, "test1_bin"));
    assert!(is_valid_out_dir("anything"));
}

#[test]
fn kept_line_is_split_at_white_space() {
    assert_eq!(split_words("  a  b\tc "), texts(&["a", "b", "c"]));
    assert_eq!(split_words(""), Vec::<String>::new());
    assert_eq!(
        parse_deps_line("demo rustc --crate-name demo"),
        Some(("demo".to_string(), texts(&["rustc", "--crate-name", "demo"])))
    );
    assert_eq!(parse_deps_line("   "), None);
    assert_eq!(parse_deps_line("solo"), Some(("solo".to_string(), Vec::new())));
}

#[test]
fn words_are_the_runs_between_marked_characters() {
    let chars: Vec<char> = "ab cd".chars().collect();
    let spaces = vec![false, false, true, false, false];
    assert_eq!(split_at_spaces(&chars, &spaces), texts(&["ab", "cd"]));
    let at_the_ends = vec![true, false, false, false, true];
    assert_eq!(split_at_spaces(&chars, &at_the_ends), texts(&["b c"]));
    assert_eq!(split_at_spaces(&chars, &Vec::new()), texts(&["ab cd"]));
}

#[test]
fn kept_line_starts_with_the_unit_name() {
    let args = texts(&["rustc", "--crate-name", "demo", "--edition=2021"]);
    assert_eq!(args_row(args), Some("demo rustc --crate-name demo --edition=2021".to_string()));
    let script = texts(&["rustc", "--crate-name", "build_script_build"]);
    assert_eq!(args_row(script), None);
}

#[test]
fn kept_line_round_trips_through_its_parser() {
    let args = texts(&["rustc", "--crate-name", "demo", "-L", "dependency=/p/deps"]);
    let row = args_row(texts(&["rustc", "--crate-name", "demo", "-L", "dependency=/p/deps"]));
    assert_eq!(parse_deps_line(row.unwrap().as_str()), Some(("demo".to_string(), args)));
}

#[test]
fn text_is_searched_and_cut_by_characters() {
    assert!(same_text("abc", "abc"));
    assert!(!same_text("abc", "abd"));
    assert!(!same_text("abc", "ab"));
    assert!(contains("x'deny_panic", "deny_panic"));
    assert!(!contains("deny_pani", "deny_panic"));
    assert!(contains("abc", ""));
    let hay = chars_of("a/debug/b/debugx");
    let cut = remove_matches(&hay, &chars_of("/debug"));
    assert_eq!(text_of(&cut, 0, cut.len()), "a/bx".to_string());
    let joined = remove_matches(&chars_of("/rel/debugease"), &chars_of("/debug"));
    assert_eq!(text_of(&joined, 0, joined.len()), "/release".to_string());
    let overlapping = remove_matches(&chars_of("aaa"), &chars_of("aa"));
    assert_eq!(text_of(&overlapping, 1, 1), "".to_string());
    assert_eq!(overlapping, vec!['a']);
    assert_eq!(text_of(&chars_of("h\u{e9}llo"), 1, 3), "\u{e9}l".to_string());
}

#[test]
fn labels_are_told_by_their_names() {
    assert_eq!(label_of("'deny_panic"), Label { restricts: true, suppresses: false });
    assert_eq!(label_of("'allow_panic"), Label { restricts: false, suppresses: true });
    assert_eq!(label_of("'outer"), Label { restricts: false, suppresses: false });
    assert_eq!(label_of("'deny_panic_allow_panic"), Label { restricts: true, suppresses: true });
}

#[test]
fn reports_start_with_their_marker() {
    let stack = vec![
        Frame { description: "f".to_string(), location: "bin.rs:1".to_string() },
        Frame { description: "panic".to_string(), location: "bin.rs:2".to_string() },
    ];
    assert_eq!(
        log_panic_in_deny_block(&stack),
        texts(&["OMG A PANIC", "    f in bin.rs:1\n", "    panic in bin.rs:2\n"])
    );
    assert_eq!(log_allow_panic(&Vec::new()), texts(&["ATTENTION ALLOW PANIC"]));
}
