use rew::filter::path::{canonicalize, to_absolute, to_relative};
use rew::filter::path::{ensure_trailing_dir_separator, get_last_name, remove_last_name, remove_trailing_dir_separator};
use rew::eval::ErrorKind;
use rew::filter::path::{
    get_absolute, get_base_name, get_canonical, get_extension, get_extension_with_dot, get_file_name,
    get_normalized, get_parent_path,
};
use rew::parse::AnyString;

fn assert_normalized(value: &str, result: &str) {
    assert_eq!(get_normalized(value.to_string()), Ok(result.to_string()));
}

#[test]
fn absolute_from_relative() {
    assert_eq!(get_absolute(String::from("parent/file.ext"), "root"), Ok(String::from("root/parent/file.ext")));
}

#[test]
fn absolute_empty() {
    assert_eq!(get_absolute(String::new(), "root"), Ok(String::from("root")));
}

#[test]
fn canonical_empty() {
    assert_eq!(
        get_canonical(String::new(), "root"),
        Err(ErrorKind::CanonicalizationFailed(AnyString(String::from("This string is not compared by assertion"))))
    );
}

#[test]
fn normalized_empty() {
    assert_normalized("", ".");
}

#[test]
fn parent_path() {
    assert_eq!(get_parent_path(String::from("root/parent/file.ext")), Ok(String::from("root/parent")));
}

#[test]
fn parent_path_missing() {
    assert_eq!(get_parent_path(String::from("file.ext")), Ok(String::new()));
}

#[test]
fn parent_path_empty() {
    assert_eq!(get_parent_path(String::new()), Ok(String::new()));
}

#[test]
fn path_file_name() {
    assert_eq!(get_file_name(String::from("root/parent/file.ext")), Ok(String::from("file.ext")));
}

#[test]
fn file_name_empty() {
    assert_eq!(get_file_name(String::new()), Ok(String::new()));
}

#[test]
fn path_base_name() {
    assert_eq!(get_base_name(String::from("root/parent/file.ext")), Ok(String::from("file")));
}

#[test]
fn base_name_extension_missing() {
    assert_eq!(get_base_name(String::from("root/parent/file")), Ok(String::from("file")));
}

#[test]
fn base_name_empty() {
    assert_eq!(get_base_name(String::new()), Ok(String::new()));
}

#[test]
fn path_extension() {
    assert_eq!(get_extension(String::from("root/parent/file.ext")), Ok(String::from("ext")));
}

#[test]
fn extension_missing() {
    assert_eq!(get_extension(String::from("root/parent/file")), Ok(String::new()));
}

#[test]
fn extension_empty() {
    assert_eq!(get_extension(String::new()), Ok(String::new()));
}

#[test]
fn path_extension_with_dot() {
    assert_eq!(get_extension_with_dot(String::from("root/parent/file.ext")), Ok(String::from(".ext")));
}

#[test]
fn extension_with_dot_missing() {
    assert_eq!(get_extension_with_dot(String::from("root/parent/file")), Ok(String::new()));
}

#[test]
fn extension_with_dot_empty() {
    assert_eq!(get_extension_with_dot(String::new()), Ok(String::new()));
}

#[test]
fn path_absolute_from_absolute() {
    assert_eq!(
        get_absolute(String::from("/root/parent/file.ext"), "ignored"),
        Ok(String::from("/root/parent/file.ext"))
    );
}

#[test]
fn path_normalized_relative_separator() {
    assert_normalized("abc", "abc");
    assert_normalized("abc/", "abc");
    assert_normalized("abc/def", "abc/def");
    assert_normalized("abc/def/", "abc/def");
    assert_normalized("abc//", "abc");
    assert_normalized("abc//def", "abc/def");
    assert_normalized("abc//def//", "abc/def");
}

#[test]
fn path_normalized_relative_dot() {
    assert_normalized(".", ".");
    assert_normalized("./", ".");
    assert_normalized("./.", ".");
    assert_normalized("././", ".");
    assert_normalized("./abc", "abc");
    assert_normalized("./abc/", "abc");
    assert_normalized("abc/.", "abc");
    assert_normalized("abc/./", "abc");
}

#[test]
fn path_normalized_relative_double_dot() {
    assert_normalized("..", "..");
    assert_normalized("../", "..");
    assert_normalized("../..", "../..");
    assert_normalized("../../", "../..");
    assert_normalized("../abc", "../abc");
    assert_normalized("../abc/", "../abc");
    assert_normalized("abc/..", ".");
    assert_normalized("abc/../", ".");
    assert_normalized("abc/../def", "def");
    assert_normalized("abc/../def/", "def");
    assert_normalized("abc/../def/ghi", "def/ghi");
    assert_normalized("abc/../def/ghi/", "def/ghi");
    assert_normalized("abc/../../ghi", "../ghi");
    assert_normalized("abc/../../ghi/", "../ghi");
    assert_normalized("abc/def/../../ghi", "ghi");
    assert_normalized("abc/def/../../ghi/", "ghi");
}

#[test]
fn path_normalized_absolute_separator() {
    assert_normalized("/abc", "/abc");
    assert_normalized("/abc/", "/abc");
    assert_normalized("/abc/def", "/abc/def");
    assert_normalized("/abc/def/", "/abc/def");
    assert_normalized("//abc", "/abc");
    assert_normalized("//abc//", "/abc");
    assert_normalized("//abc//def", "/abc/def");
    assert_normalized("//abc//def//", "/abc/def");
}

#[test]
fn path_normalized_absolute_dot() {
    assert_normalized("/.", "/");
    assert_normalized("/./", "/");
    assert_normalized("/./.", "/");
    assert_normalized("/././", "/");
    assert_normalized("/./abc", "/abc");
    assert_normalized("/./abc/", "/abc");
    assert_normalized("/abc/.", "/abc");
    assert_normalized("/abc/./", "/abc");
}

#[test]
fn path_normalized_absolute_double_dot() {
    assert_normalized("/..", "/");
    assert_normalized("/../", "/");
    assert_normalized("/../..", "/");
    assert_normalized("/../../", "/");
    assert_normalized("/../abc", "/abc");
    assert_normalized("/../abc/", "/abc");
    assert_normalized("/abc/..", "/");
    assert_normalized("/abc/../", "/");
    assert_normalized("/abc/../def", "/def");
    assert_normalized("/abc/../def/", "/def");
    assert_normalized("/abc/../def/ghi", "/def/ghi");
    assert_normalized("/abc/../def/ghi/", "/def/ghi");
    assert_normalized("/abc/../../ghi", "/ghi");
    assert_normalized("/abc/../../ghi/", "/ghi");
    assert_normalized("/abc/def/../../ghi", "/ghi");
    assert_normalized("/abc/def/../../ghi/", "/ghi");
}

#[test]
fn base_name_with_path() {
    assert_eq!(rew::filter::path::get_base_name_with_path(String::from("root/parent/file.ext")), Ok(String::from("root/parent/file")));
}

#[test]
fn base_name_with_path_extension_missing() {
    assert_eq!(rew::filter::path::get_base_name_with_path(String::from("root/parent/file")), Ok(String::from("root/parent/file")));
}

#[test]
fn base_name_with_path_empty() {
    assert_eq!(rew::filter::path::get_base_name_with_path(String::new()), Ok(String::new()));
}

#[test]
fn last_and_trailing_names() {
    assert_eq!(remove_last_name(String::from("a/b/c")), Ok(String::from("a/b")));
    assert_eq!(remove_last_name(String::from("/")), Ok(String::from("/")));
    assert_eq!(remove_last_name(String::from("c")), Ok(String::new()));
    assert_eq!(get_last_name("a/b/c"), Ok(String::from("c")));
    assert_eq!(get_last_name("a/.."), Ok(String::from("..")));
    assert_eq!(get_last_name("/"), Ok(String::new()));
    assert_eq!(get_last_name(""), Ok(String::new()));
    assert_eq!(ensure_trailing_dir_separator(String::from("a")), "a/");
    assert_eq!(ensure_trailing_dir_separator(String::from("a/")), "a/");
    assert_eq!(ensure_trailing_dir_separator(String::new()), "/");
    assert_eq!(remove_trailing_dir_separator(String::from("a/")), "a");
    assert_eq!(remove_trailing_dir_separator(String::from("a")), "a");
    assert_eq!(remove_trailing_dir_separator(String::from("a//")), "a/");
}

#[test]
fn to_absolute_cases() {
    assert_eq!(to_absolute(String::new(), "/work"), Ok(String::from("/work")));
    assert_eq!(to_absolute(String::from("file.ext"), "/work"), Ok(String::from("/work/file.ext")));
    assert_eq!(to_absolute(String::from("/file.ext"), "/work"), Ok(String::from("/file.ext")));
}

#[test]
fn canonicalize_root() {
    assert_eq!(canonicalize(String::from("/"), "/work"), Ok(String::from("/")));
}

#[test]
fn canonicalize_err() {
    assert_eq!(
        canonicalize(String::from("non-existent"), "/no-such-directory-here"),
        Err(ErrorKind::CanonicalizationFailed(AnyString::any()))
    );
}

#[test]
fn canonical() {
    assert_eq!(get_canonical(String::from("/"), "/no-such-directory-here"), Ok(String::from("/")));
}

#[test]
fn to_relative_cases() {
    assert_eq!(to_relative(String::new(), "/work"), Ok(String::new()));
    assert_eq!(to_relative(String::from("file.ext"), "/work"), Ok(String::from("file.ext")));
    assert_eq!(to_relative(String::from("/work/../file.ext"), "/work"), Ok(String::from("../file.ext")));
    assert_eq!(to_relative(String::from("/work/a/b"), "/work"), Ok(String::from("a/b")));
    assert_eq!(to_relative(String::from("/other/x"), "/work/y"), Ok(String::from("../../other/x")));
}

#[test]
fn remove_extension_cases() {
    use_remove_extension("root/parent/file.ext", "root/parent/file");
    use_remove_extension("root/parent/file", "root/parent/file");
    use_remove_extension("root/.hidden", "root/.hidden");
    use_remove_extension("", "");
}

fn use_remove_extension(input: &str, output: &str) {
    assert_eq!(rew::filter::path::remove_extension(String::from(input)), Ok(String::from(output)));
}

#[test]
fn normalized_is_stable_and_in_normal_form() {
    let inputs = ["", ".", "..", "a/./b/../c/", "/../a/..", "../../a/b/../..", "/a//b/./c/..", "a/../..", "./"];
    for value in inputs {
        let once = get_normalized(value.to_string()).unwrap();
        assert!(!once.is_empty(), "{}", value);
        assert_eq!(get_normalized(once.clone()), Ok(once.clone()), "{}", value);
        let parts: Vec<&str> = once.split('/').filter(|p| !p.is_empty()).collect();
        if once != "." {
            assert!(!parts.contains(&"."), "{}", value);
        }
        for k in 1..parts.len() {
            assert!(!(parts[k] == ".." && parts[k - 1] != ".."), "{}", value);
        }
        if once.starts_with('/') {
            assert!(!parts.contains(&".."), "{}", value);
        }
    }
}
