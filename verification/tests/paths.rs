use dotty::paths::{home_relative, tilde_relative};

#[test]
fn tilde_paths_lose_the_tilde_and_leading_slashes() {
    assert_eq!(tilde_relative("~/.bashrc"), Some(".bashrc".to_string()));
    assert_eq!(tilde_relative("~//x"), Some("x".to_string()));
    assert_eq!(tilde_relative("~/a/b"), Some("a/b".to_string()));
    assert_eq!(tilde_relative("~"), Some(String::new()));
    assert_eq!(tilde_relative("~user"), Some("user".to_string()));
}

#[test]
fn other_paths_stand_as_they_are() {
    assert_eq!(tilde_relative("a"), None);
    assert_eq!(tilde_relative(""), None);
    assert_eq!(tilde_relative("/home/~"), None);
}

#[test]
fn home_paths_need_tilde_and_slash() {
    assert_eq!(home_relative("~/.config/nvim"), Some(".config/nvim".to_string()));
    assert_eq!(home_relative("~/"), Some(String::new()));
    assert_eq!(home_relative("~"), None);
    assert_eq!(home_relative("~x"), None);
    assert_eq!(home_relative("/etc/hosts"), None);
}
