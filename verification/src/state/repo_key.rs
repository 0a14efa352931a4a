//! The identity of a repository: the key on which per-repository work is
//! serialised.

use vstd::prelude::*;

use crate::text::{chars_of, concat3, string_of};

verus! {

/// `owner_did` with every `:` and every `/` replaced by `_`.
pub open spec fn owner_slug(owner_did: Seq<char>) -> Seq<char> {
    owner_did.map_values(|c: char| if c == ':' || c == '/' { '_' } else { c })
}

/// The owner's slug, a slash and the repository's name.
pub open spec fn repo_key(owner_did: Seq<char>, repo_name: Seq<char>) -> Seq<char> {
    owner_slug(owner_did) + seq!['/'] + repo_name
}

/// `owner_did` with every `:` and every `/` replaced by `_`: the directory name
/// of the owner.
pub fn slug_of(owner_did: &str) -> (r: String)
    ensures
        r@ == owner_slug(owner_did@),
{
    let owner = chars_of(owner_did);
    let mut slug: Vec<char> = Vec::new();
    let mut i: usize = 0;
    while i < owner.len()
        invariant
            i <= owner.len(),
            slug.len() == i,
            forall|j: int| 0 <= j < i ==> slug@[j] == owner_slug(owner@)[j],
        decreases owner.len() - i,
    {
        let c = owner[i];
        slug.push(if c == ':' || c == '/' { '_' } else { c });
        i = i + 1;
    }
    assert(slug@ =~= owner_slug(owner@));
    string_of(&slug)
}

/// The key of the repository `repo_name` of the owner `owner_did`.
///
/// It is made of the owner's directory name and the repository's name, so it
/// stays the same when the repository's row is deleted and created again. Two
/// owners with one directory share their keys, on purpose: they share the
/// directory that the key protects.
pub fn repo_identity_key(owner_did: &str, repo_name: &str) -> (r: String)
    ensures
        r@ == repo_key(owner_did@, repo_name@),
{
    proof {
        reveal_strlit("/");
        assert("/"@ =~= seq!['/']);
    }
    concat3(slug_of(owner_did).as_str(), "/", repo_name)
}

/// A slug holds neither a colon nor a slash.
pub proof fn slug_is_one_path_component(owner_did: Seq<char>)
    ensures
        !owner_slug(owner_did).contains(':'),
        !owner_slug(owner_did).contains('/'),
        owner_slug(owner_did).len() == owner_did.len(),
{
}

/// The key keeps owner and name apart: two repositories share a key exactly if
/// their owners share a slug and they have the same name.
pub proof fn key_separates_owner_and_name(
    owner: Seq<char>,
    name: Seq<char>,
    other_owner: Seq<char>,
    other_name: Seq<char>,
)
    ensures
        repo_key(owner, name) == repo_key(other_owner, other_name) <==> owner_slug(owner)
            == owner_slug(other_owner) && name == other_name,
{
    if repo_key(owner, name) == repo_key(other_owner, other_name) {
        let a = owner_slug(owner);
        let b = owner_slug(other_owner);
        let l = repo_key(owner, name);
        let r = repo_key(other_owner, other_name);
        slug_is_one_path_component(owner);
        slug_is_one_path_component(other_owner);
        assert(l[a.len() as int] == '/');
        assert(r[b.len() as int] == '/');
        if a.len() < b.len() {
            assert(r[a.len() as int] == b[a.len() as int]);
        }
        if b.len() < a.len() {
            assert(l[b.len() as int] == a[b.len() as int]);
        }
        assert(l.take(a.len() as int) =~= a);
        assert(r.take(a.len() as int) =~= b);
        assert(l.skip(a.len() as int + 1) =~= name);
        assert(r.skip(a.len() as int + 1) =~= other_name);
    }
}

/// Owners that are spelled with other separators share the key.
pub proof fn separator_spellings_share_the_key(head: Seq<char>, tail: Seq<char>, name: Seq<char>)
    ensures
        repo_key(head + seq![':'] + tail, name) == repo_key(head + seq!['/'] + tail, name),
{
    assert(owner_slug(head + seq![':'] + tail) =~= owner_slug(head + seq!['/'] + tail));
}

/// A key without control characters comes from an owner and a name without
/// them: only the characters of the two, `_` and `/` occur in it.
pub proof fn key_adds_only_printable_characters(owner: Seq<char>, name: Seq<char>, c: char)
    requires
        repo_key(owner, name).contains(c),
    ensures
        owner.contains(c) || name.contains(c) || c == '_' || c == '/',
{
    let k = repo_key(owner, name);
    let i = choose|i: int| 0 <= i < k.len() && k[i] == c;
    if i < owner.len() {
        assert(k[i] == owner_slug(owner)[i]);
        assert(c == '_' || owner[i] == c);
    } else if i > owner.len() {
        assert(k[i] == name[i - owner.len() - 1]);
    }
}

/// A slug differs from the DID only where that has a colon or a slash, and has an
/// underscore there.
pub proof fn slugs_replace_separators_only(owner_did: Seq<char>, i: int)
    requires
        0 <= i < owner_did.len(),
    ensures
        owner_did[i] as int == 58 || owner_did[i] as int == 47 ==> owner_slug(owner_did)[i] as int
            == 95,
        owner_did[i] as int != 58 && owner_did[i] as int != 47 ==> owner_slug(owner_did)[i]
            == owner_did[i],
{
}

/// The key begins with the slug, and ends with the name; one slash stands between.
pub proof fn keys_join_slug_and_name(owner: Seq<char>, name: Seq<char>)
    ensures
        repo_key(owner, name).len() == owner.len() + 1 + name.len(),
        repo_key(owner, name).take(owner.len() as int) == owner_slug(owner),
        repo_key(owner, name)[owner.len() as int] as int == 47,
        repo_key(owner, name).skip(owner.len() as int + 1) == name,
{
    assert(repo_key(owner, name).take(owner.len() as int) =~= owner_slug(owner));
    assert(repo_key(owner, name).skip(owner.len() as int + 1) =~= name);
}

} // verus!
