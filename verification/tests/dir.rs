//! Tests of directory binding keys.

use resurreccion::dir::{compose_binding_key, GitInfo, Scope};

#[test]
fn test_distinct_paths_produce_distinct_keys() {
    let key1 = compose_binding_key("/tmp/a", None, Scope::PathScoped);
    let key2 = compose_binding_key("/tmp/b", None, Scope::PathScoped);
    assert_ne!(key1, key2);
}

#[test]
fn test_same_path_produces_same_key() {
    let key1 = compose_binding_key("/tmp/a", None, Scope::PathScoped);
    let key2 = compose_binding_key("/tmp/a", None, Scope::PathScoped);
    assert_eq!(key1, key2);
}

#[test]
fn test_path_scoped_and_repo_scoped_differ() {
    let path_key = compose_binding_key("/tmp/a", None, Scope::PathScoped);
    let repo_key = compose_binding_key("/tmp/a", None, Scope::RepoScoped);
    assert_ne!(path_key, repo_key);
}

#[test]
fn repo_scope_keys_on_remote_then_worktree() {
    let with_remote = GitInfo { remote: Some("git@h:r.git".to_string()), worktree_name: "wt".to_string() };
    let key = compose_binding_key("/any/path", Some(&with_remote), Scope::RepoScoped);
    assert_eq!(key.as_bytes(), blake3::hash(b"repo:git@h:r.git").as_bytes());
    let no_remote = GitInfo { remote: None, worktree_name: "wt".to_string() };
    let key = compose_binding_key("/any/path", Some(&no_remote), Scope::RepoScoped);
    assert_eq!(key.as_bytes(), blake3::hash(b"repo:wt").as_bytes());
    let key = compose_binding_key("/p", None, Scope::RepoScoped);
    assert_eq!(key.as_bytes(), blake3::hash(b"repo:/p").as_bytes());
    let key = compose_binding_key("/p", Some(&with_remote), Scope::PathScoped);
    assert_eq!(key.as_bytes(), blake3::hash(b"path:/p").as_bytes());
}

#[test]
fn clones_with_the_same_remote_share_a_repo_key() {
    let remote = Some("git@example.com:me/proj.git".to_string());
    let a = GitInfo { remote: remote.clone(), worktree_name: "proj".to_string() };
    let b = GitInfo { remote, worktree_name: "proj-copy".to_string() };
    let k1 = compose_binding_key("/home/me/proj", Some(&a), Scope::RepoScoped);
    let k2 = compose_binding_key("/srv/build/proj-copy", Some(&b), Scope::RepoScoped);
    assert_eq!(k1.to_string(), k2.to_string());
    let k3 = compose_binding_key("/home/me/proj", Some(&a), Scope::PathScoped);
    assert_ne!(k1.to_string(), k3.to_string());
}
