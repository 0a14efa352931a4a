use gitlawb_node::state::repo_key::{repo_identity_key, slug_of};
use gitlawb_node::test_harness::bare_repo_path;

#[test]
fn matches_repo_disk_paths_sanitization() {
    let owner = "did:key:z6Mkfoo";
    let name = "r";
    let expected_slug = owner.replace([':', '/'], "_");
    assert_eq!(
        repo_identity_key(owner, name),
        format!("{expected_slug}/{name}")
    );
    assert_eq!(slug_of(owner), expected_slug);
    assert_eq!(
        bare_repo_path(owner, name),
        (expected_slug, "r.git".to_string()),
        "the key's slug must be the one that is put on disk"
    );
}

#[test]
fn is_stable_across_a_row_id_rotation() {
    assert_eq!(
        repo_identity_key("did:key:z6Mkfoo", "r"),
        repo_identity_key("did:key:z6Mkfoo", "r"),
    );
}

#[test]
fn separator_prevents_the_owner_name_boundary_collision() {
    assert_ne!(
        repo_identity_key("a", "bc"),
        repo_identity_key("ab", "c"),
        "owner/name boundary must not be ambiguous"
    );
}

#[test]
fn key_is_printable_so_the_lease_warnings_stay_readable() {
    let k = repo_identity_key("did:web:example.com:alice", "my-repo.git");
    assert!(
        !k.chars().any(|c| c.is_control()),
        "the identity key is logged; it must carry no control characters: {k:?}"
    );
    assert_eq!(k, "did_web_example.com_alice/my-repo.git");
}

#[test]
fn distinct_repos_and_owners_do_not_share_a_key() {
    assert_ne!(
        repo_identity_key("did:key:z6A", "r"),
        repo_identity_key("did:key:z6A", "s")
    );
    assert_ne!(
        repo_identity_key("did:key:z6A", "r"),
        repo_identity_key("did:key:z6B", "r")
    );
}

#[test]
fn folds_did_web_alias_spellings_together_which_the_unique_disk_path_makes_unreachable() {
    assert_eq!(
        repo_identity_key("did:web:example.com:alice", "r"),
        repo_identity_key("did:web:example.com/alice", "r"),
    );
}
