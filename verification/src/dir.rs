//! Directory binding: the stable key of a workspace directory.
//!
//! Resolving a path and finding its git repository touch the file system and
//! are done by the caller; the key itself is composed here.

use vstd::prelude::*;
use vstd::string::StringSliceAdditionalSpecFns;
use vstd::utf8::encode_utf8;
use crate::domain::ids::{BindingKey, blake3_digest, blake3_hash, push_bytes};

verus! {

/// Metadata about a git repository.
#[derive(Debug, Clone)]
pub struct GitInfo {
    /// First remote URL (typically "origin"), or none if there is no remote.
    pub remote: Option<String>,
    /// Base name of the git working directory.
    pub worktree_name: String,
}

/// What a binding key is scoped to.
#[derive(Debug, Clone, Copy, PartialEq, Eq, Structural)]
pub enum Scope {
    /// The canonical file-system path alone.
    PathScoped,
    /// The git remote (or the worktree name where there is no remote).
    RepoScoped,
}

/// The ASCII bytes of `path:`.
pub open spec fn path_tag() -> Seq<u8> {
    seq![112u8, 97u8, 116u8, 104u8, 58u8]
}

/// The ASCII bytes of `repo:`.
pub open spec fn repo_tag() -> Seq<u8> {
    seq![114u8, 101u8, 112u8, 111u8, 58u8]
}

/// The bytes that identify a repository: its remote, or its worktree name
/// where it has no remote.
pub open spec fn repo_identity(git: GitInfo) -> Seq<u8> {
    match git.remote {
        Some(r) => encode_utf8(r@),
        None => encode_utf8(git.worktree_name@),
    }
}

/// The message hashed into the key: the scope's tag, then the path (path
/// scope), or the repository's identity, or the path outside any repository
/// (repository scope).
pub open spec fn key_message(canonical: Seq<u8>, git: Option<GitInfo>, scope: Scope) -> Seq<u8> {
    match scope {
        Scope::PathScoped => path_tag() + canonical,
        Scope::RepoScoped => repo_tag() + match git {
            Some(g) => repo_identity(g),
            None => canonical,
        },
    }
}

/// The optional git metadata, by value.
pub open spec fn git_value(git: Option<&GitInfo>) -> Option<GitInfo> {
    match git {
        Some(g) => Some(*g),
        None => None,
    }
}

/// Composes the stable binding key of a canonical path, its optional git
/// metadata and a scope: the BLAKE3 hash of the scope's tag and what the
/// scope keys on.
pub fn compose_binding_key(canonical: &str, git: Option<&GitInfo>, scope: Scope) -> (k: BindingKey)
    ensures
        k.key_bytes() == blake3_digest(key_message(canonical.spec_bytes(), git_value(git), scope)),
{
    let mut msg: Vec<u8> = Vec::new();
    match scope {
        Scope::PathScoped => {
            msg.push(112u8);
            msg.push(97u8);
            msg.push(116u8);
            msg.push(104u8);
            msg.push(58u8);
            assert(msg@ =~= path_tag());
            push_bytes(&mut msg, canonical.as_bytes());
        },
        Scope::RepoScoped => {
            msg.push(114u8);
            msg.push(101u8);
            msg.push(112u8);
            msg.push(111u8);
            msg.push(58u8);
            assert(msg@ =~= repo_tag());
            match git {
                Some(g) => match &g.remote {
                    Some(remote) => push_bytes(&mut msg, remote.as_str().as_bytes()),
                    None => push_bytes(&mut msg, g.worktree_name.as_str().as_bytes()),
                },
                None => push_bytes(&mut msg, canonical.as_bytes()),
            }
        },
    }
    BindingKey::from_bytes(blake3_hash(msg.as_slice()))
}

/// The two scopes hash different messages for every path and repository:
/// the path-scoped message starts with `p`, the repository-scoped one with
/// `r`.
pub proof fn lemma_scopes_hash_different_messages(canonical: Seq<u8>, git: Option<GitInfo>)
    ensures
        key_message(canonical, git, Scope::PathScoped) != key_message(canonical, git, Scope::RepoScoped),
{
    let a = key_message(canonical, git, Scope::PathScoped);
    let b = key_message(canonical, git, Scope::RepoScoped);
    assert(a[0] == 112u8);
    assert(b[0] == 114u8);
}

/// Repository-scoped keys are stable across clones: two checkouts with the
/// same remote, wherever they are and whatever their worktrees are called,
/// hash the same message, so they get the same key.
pub proof fn lemma_clones_share_repo_key(c1: Seq<u8>, c2: Seq<u8>, g1: GitInfo, g2: GitInfo)
    requires
        g1.remote is Some,
        g2.remote is Some,
        g1.remote->0@ == g2.remote->0@,
    ensures
        key_message(c1, Some(g1), Scope::RepoScoped) == key_message(c2, Some(g2), Scope::RepoScoped),
        blake3_digest(key_message(c1, Some(g1), Scope::RepoScoped)) == blake3_digest(
            key_message(c2, Some(g2), Scope::RepoScoped),
        ),
{
}

} // verus!
