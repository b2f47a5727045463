use provision::lines::{bytes_eq, split_lines, trim_bytes};
use provision::packages::parse_package_list;

fn b(s: &str) -> Vec<u8> {
    s.as_bytes().to_vec()
}

fn lines(ls: &[&str]) -> Vec<Vec<u8>> {
    let mut out = Vec::new();
    for l in ls {
        out.push(b(l));
    }
    out
}

#[test]
fn split_keeps_every_line() {
    assert_eq!(split_lines(&b("a\nb")), lines(&["a", "b"]));
    assert_eq!(split_lines(&b("a\nb\n")), lines(&["a", "b", ""]));
    assert_eq!(split_lines(&b("")), lines(&[""]));
    assert_eq!(split_lines(&b("\n")), lines(&["", ""]));
}

#[test]
fn trim_strips_surrounding_whitespace_only() {
    assert_eq!(trim_bytes(&b("  vim \t")), b("vim"));
    assert_eq!(trim_bytes(&b("git")), b("git"));
    assert_eq!(trim_bytes(&b(" \t\r\n")), b(""));
    assert_eq!(trim_bytes(&b("a b")), b("a b"));
    assert_eq!(trim_bytes(&b("")), b(""));
}

#[test]
fn package_list_drops_blanks_and_trims() {
    let content = b("vim\n\n  git \nripgrep");
    assert_eq!(parse_package_list(&content), lines(&["vim", "git", "ripgrep"]));
}

#[test]
fn package_list_of_blank_content_is_empty() {
    assert_eq!(parse_package_list(&b("\n \n\t\n")), Vec::<Vec<u8>>::new());
    assert_eq!(parse_package_list(&b("")), Vec::<Vec<u8>>::new());
}

#[test]
fn package_list_keeps_order() {
    let content = b("zoxide\nbat\nexa\n");
    assert_eq!(parse_package_list(&content), lines(&["zoxide", "bat", "exa"]));
}

#[test]
fn byte_equality_is_exact() {
    assert!(bytes_eq(&b("export A=1"), &b("export A=1")));
    assert!(!bytes_eq(&b("export A=1"), &b("export A=2")));
    assert!(!bytes_eq(&b("a"), &b("ab")));
    assert!(bytes_eq(&b(""), &b("")));
}
