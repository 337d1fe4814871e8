use unpanic::dep_handler::{serialize_args, strip_marks};
use unpanic::errors::Error;
use unpanic::rustc_arg_handlers::{
    get_crate_name, get_location, get_target_path_index, get_unpanic_path, have_arg,
    name_from_path_string,
};

fn strings(items: &[&str]) -> Vec<String> {
    items.iter().map(|s| s.to_string()).collect()
}

#[test]
fn test_name_from_path_string() {
    let name = "libinterface_nested_lib-53b4ac4b97d7f3ac.rmeta".to_string();
    let expected = "interface_nested_lib".to_string();
    let actual = name_from_path_string(&name);
    assert_eq!(expected, actual);
}

#[test]
fn crate_name_stands_behind_its_flag() {
    let args = strings(&["rustc", "--crate-name", "demo", "--edition=2021", "src/lib.rs"]);
    assert_eq!(get_crate_name(&args), Ok("demo".to_string()));
    assert_eq!(get_location(&args), Ok("src/lib.rs".to_string()));
}

#[test]
fn missing_crate_name_is_an_error() {
    let args = strings(&["rustc", "--edition=2021"]);
    assert_eq!(get_crate_name(&args), Err(Error::CrateNameMissing));
    assert_eq!(get_location(&args), Err(Error::SrcLocationMissing));
    let short = strings(&["--crate-name", "demo", "x"]);
    assert_eq!(get_location(&short), Err(Error::SrcLocationMissing));
}

#[test]
fn out_dir_index_follows_the_flag() {
    let args = strings(&["rustc", "--out-dir", "/p/target/debug/deps"]);
    assert_eq!(get_target_path_index(&args), Ok(2));
    let cut = strings(&["rustc", "--out-dir"]);
    assert_eq!(get_target_path_index(&cut), Err(Error::TargetPathMissing));
    assert!(have_arg(&args, "--out-dir"));
    assert!(!have_arg(&args, "--print=cfg"));
}

#[test]
fn unpanic_path_drops_profile_directories() {
    let args = strings(&["rustc", "--out-dir", "/p/target/debug/deps"]);
    assert_eq!(get_unpanic_path(&args, 2), Ok("/p/target/no-panic/deps".to_string()));
    let platform = strings(&["/p/target/x86_64-unknown-linux-gnu/release/deps"]);
    assert_eq!(get_unpanic_path(&platform, 0), Ok("/p/target/no-panic/deps".to_string()));
}

#[test]
fn serialized_arguments_are_separated_by_spaces() {
    let args = strings(&["rustc", "--crate-name", "demo"]);
    assert_eq!(serialize_args(args), "rustc --crate-name demo".to_string());
    assert_eq!(strip_marks("[\"a\", \"b\"]"), "a b".to_string());
}
