use provision::paths::{contains_vcs_marker, rebase_path};

fn b(s: &str) -> Vec<u8> {
    s.as_bytes().to_vec()
}

#[test]
fn version_control_metadata_is_recognised() {
    assert!(contains_vcs_marker(&b("/tmp/dotfiles/.git/config")));
    assert!(contains_vcs_marker(&b("/tmp/dotfiles/.gitignore")));
    assert!(contains_vcs_marker(&b(".git")));
    assert!(!contains_vcs_marker(&b("/tmp/dotfiles/nvim/init.vim")));
    assert!(!contains_vcs_marker(&b("/tmp/dotfiles/gitconfig")));
    assert!(!contains_vcs_marker(&b("")));
}

#[test]
fn rebase_keeps_the_structure_under_the_root() {
    let dst = rebase_path(&b("/tmp/dots/nvim/init.vim"), &b("/tmp/dots"), &b("/home/me"));
    assert_eq!(dst, Some(b("/home/me/nvim/init.vim")));
    let top = rebase_path(&b("/tmp/dots/bashrc"), &b("/tmp/dots"), &b("/home/me"));
    assert_eq!(top, Some(b("/home/me/bashrc")));
}

#[test]
fn rebase_refuses_a_path_outside_the_root() {
    assert_eq!(rebase_path(&b("/etc/passwd"), &b("/tmp/dots"), &b("/home/me")), None);
    assert_eq!(rebase_path(&b("/tmp"), &b("/tmp/dots"), &b("/home/me")), None);
}

#[test]
fn rebase_of_the_root_itself_is_the_destination() {
    assert_eq!(rebase_path(&b("/tmp/dots"), &b("/tmp/dots"), &b("/home/me")), Some(b("/home/me")));
}
