//! The names of the files beside the identity key.
//!
//! Every file's name begins with `.{stem}.` and a word for its class, where the
//! stem is the name of the identity key's own file.

use vstd::prelude::*;

use crate::identity::ops::FileRef;
use crate::text::{
    concat2, concat3, decimal, decimal_has_no_dot, decimal_injective, decimal_string, has_prefix,
    hex8_string, hex_bound, hex_padded, hex_padded_injective, hex_padded_shape, split_at_dot,
};

verus! {

/// `.{stem}.{class}.`
pub open spec fn class_prefix(stem: Seq<char>, class: Seq<char>) -> Seq<char> {
    seq!['.'] + stem + seq!['.'] + class + seq!['.']
}

fn prefix_of(stem: &str, class: &str) -> (r: String)
    ensures
        r@ == class_prefix(stem@, class@),
{
    proof {
        reveal_strlit(".");
        assert("."@ =~= seq!['.']);
    }
    let a = concat3(".", stem, ".");
    concat3(a.as_str(), class, ".")
}

/// The stem of an identity key: its file name, or `identity.pem` where the file
/// name is not text.
pub fn key_stem(file_name: Option<String>) -> (r: String)
    ensures
        r@ == (match file_name {
            Some(n) => n@,
            None => "identity.pem"@,
        }),
{
    match file_name {
        Some(n) => n,
        None => "identity.pem".to_owned(),
    }
}

/// The prefix of the publish markers: `.{stem}.publishing.`
pub fn publishing_prefix(stem: &str) -> (r: String)
    ensures
        r@ == class_prefix(stem@, "publishing"@),
{
    prefix_of(stem, "publishing")
}

/// The prefix of the recovery claims: `.{stem}.recovering.`
pub fn recovering_prefix(stem: &str) -> (r: String)
    ensures
        r@ == class_prefix(stem@, "recovering"@),
{
    prefix_of(stem, "recovering")
}

/// The prefix of the quarantined keys: `.{stem}.quarantined.`
pub fn quarantined_prefix(stem: &str) -> (r: String)
    ensures
        r@ == class_prefix(stem@, "quarantined"@),
{
    prefix_of(stem, "quarantined")
}

/// The prefix of the superseded keys: `.{stem}.superseded.`
pub fn superseded_prefix(stem: &str) -> (r: String)
    ensures
        r@ == class_prefix(stem@, "superseded"@),
{
    prefix_of(stem, "superseded")
}

/// The prefix of the temporary files: `.{stem}.tmp.`
pub fn temp_prefix(stem: &str) -> (r: String)
    ensures
        r@ == class_prefix(stem@, "tmp"@),
{
    prefix_of(stem, "tmp")
}

/// `{prefix}{pid}.{n}`
pub open spec fn numbered(prefix: Seq<char>, pid: u32, n: u32) -> Seq<char> {
    prefix + decimal(pid as nat) + seq!['.'] + decimal(n as nat)
}

/// `{prefix}{pid}.{nonce}.{n}`, the nonce in eight hexadecimal digits.
pub open spec fn nonced(prefix: Seq<char>, pid: u32, nonce: u32, n: u32) -> Seq<char> {
    prefix + decimal(pid as nat) + seq!['.'] + hex_padded(nonce as nat, 8) + seq!['.'] + decimal(
        n as nat,
    )
}

/// The name of a file of the process `pid` with claim nonce `nonce`, beside a
/// key with the given stem; `None` for a file known only from a listing.
pub open spec fn name_of(stem: Seq<char>, pid: u32, nonce: u32, file: FileRef) -> Option<
    Seq<char>,
> {
    match file {
        FileRef::Final => Some(stem),
        FileRef::Temp(n) => Some(numbered(class_prefix(stem, "tmp"@), pid, n)),
        FileRef::Marker(n) => Some(numbered(class_prefix(stem, "publishing"@), pid, n)),
        FileRef::Claim(n) => Some(nonced(class_prefix(stem, "recovering"@), pid, nonce, n)),
        FileRef::Quarantine(n) => Some(numbered(class_prefix(stem, "quarantined"@), pid, n)),
        FileRef::Superseded(n) => Some(numbered(class_prefix(stem, "superseded"@), pid, n)),
        FileRef::Listed(_) => None,
    }
}

fn numbered_name(prefix: &str, pid: u32, n: u32) -> (r: String)
    ensures
        r@ == numbered(prefix@, pid, n),
{
    proof {
        reveal_strlit(".");
        assert("."@ =~= seq!['.']);
    }
    let a = concat3(prefix, decimal_string(pid as u64).as_str(), ".");
    concat2(a.as_str(), decimal_string(n as u64).as_str())
}

fn nonced_name(prefix: &str, pid: u32, nonce: u32, n: u32) -> (r: String)
    ensures
        r@ == nonced(prefix@, pid, nonce, n),
{
    proof {
        reveal_strlit(".");
        assert("."@ =~= seq!['.']);
    }
    let a = concat3(prefix, decimal_string(pid as u64).as_str(), ".");
    let b = concat3(a.as_str(), hex8_string(nonce).as_str(), ".");
    concat2(b.as_str(), decimal_string(n as u64).as_str())
}

/// The name of a file of the process `pid` with claim nonce `nonce`.
pub fn file_name(stem: &str, pid: u32, nonce: u32, file: FileRef) -> (r: Option<String>)
    ensures
        r is Some == name_of(stem@, pid, nonce, file) is Some,
        r is Some ==> r->0@ == name_of(stem@, pid, nonce, file)->0,
{
    match file {
        FileRef::Final => Some(stem.to_owned()),
        FileRef::Temp(n) => Some(numbered_name(temp_prefix(stem).as_str(), pid, n)),
        FileRef::Marker(n) => Some(numbered_name(publishing_prefix(stem).as_str(), pid, n)),
        FileRef::Claim(n) => Some(nonced_name(recovering_prefix(stem).as_str(), pid, nonce, n)),
        FileRef::Quarantine(n) => Some(numbered_name(quarantined_prefix(stem).as_str(), pid, n)),
        FileRef::Superseded(n) => Some(numbered_name(superseded_prefix(stem).as_str(), pid, n)),
        FileRef::Listed(_) => None,
    }
}

/// The claim nonce: the exclusive or of the clock and an address of the
/// process, folded to 32 bits.
pub open spec fn claim_nonce_spec(nanos: u64, address: u64) -> u32 {
    let mixed = nanos ^ address;
    (mixed ^ (mixed >> 32)) as u32
}

/// The claim nonce of a process that started at `nanos` and has a static at
/// `address`.
pub fn claim_nonce(nanos: u64, address: u64) -> (r: u32)
    ensures
        r == claim_nonce_spec(nanos, address),
{
    let mixed: u64 = nanos ^ address;
    #[verifier::truncate]
    ((mixed ^ (mixed >> 32)) as u32)
}

/// The words that name the file classes.
pub open spec fn class_word(class: Seq<char>) -> bool {
    class == "tmp"@ || class == "publishing"@ || class == "recovering"@ || class
        == "quarantined"@ || class == "superseded"@
}

/// The class words begin with different letters.
pub proof fn class_words()
    ensures
        "tmp"@.len() > 0 && "tmp"@[0] == 't',
        "publishing"@.len() > 0 && "publishing"@[0] == 'p',
        "recovering"@.len() > 0 && "recovering"@[0] == 'r',
        "quarantined"@.len() > 0 && "quarantined"@[0] == 'q',
        "superseded"@.len() > 0 && "superseded"@[0] == 's',
{
    reveal_strlit("tmp");
    reveal_strlit("publishing");
    reveal_strlit("recovering");
    reveal_strlit("quarantined");
    reveal_strlit("superseded");
}

/// No name belongs to two classes: a name with the prefixes of two classes has
/// one class only.
pub proof fn classes_are_disjoint(
    stem: Seq<char>,
    name: Seq<char>,
    first: Seq<char>,
    second: Seq<char>,
)
    requires
        class_word(first),
        class_word(second),
        has_prefix(name, class_prefix(stem, first)),
        has_prefix(name, class_prefix(stem, second)),
    ensures
        first == second,
{
    class_words();
    let at = stem.len() as int + 2;
    let p = class_prefix(stem, first);
    let q = class_prefix(stem, second);
    assert(p[at] == first[0]);
    assert(q[at] == second[0]);
    assert(name.take(p.len() as int)[at] == name[at]);
    assert(name.take(q.len() as int)[at] == name[at]);
}

/// A file of the process has its class's prefix, and its name is not the stem.
pub proof fn names_have_their_prefix(
    stem: Seq<char>,
    class: Seq<char>,
    rest: Seq<char>,
)
    ensures
        has_prefix(class_prefix(stem, class) + rest, class_prefix(stem, class)),
        class_prefix(stem, class) + rest != stem,
{
    let p = class_prefix(stem, class);
    assert((p + rest).take(p.len() as int) =~= p);
    assert((p + rest).len() > stem.len());
}

proof fn numbered_injective(p: Seq<char>, pid: u32, a: u32, other_pid: u32, b: u32)
    requires
        numbered(p, pid, a) == numbered(p, other_pid, b),
    ensures
        pid == other_pid,
        a == b,
{
    let x = decimal(pid as nat) + seq!['.'] + decimal(a as nat);
    let y = decimal(other_pid as nat) + seq!['.'] + decimal(b as nat);
    assert(numbered(p, pid, a) =~= p + x);
    assert(numbered(p, other_pid, b) =~= p + y);
    assert((p + x).skip(p.len() as int) =~= x);
    assert((p + y).skip(p.len() as int) =~= y);
    decimal_has_no_dot(pid as nat);
    decimal_has_no_dot(other_pid as nat);
    split_at_dot(decimal(pid as nat), decimal(a as nat), decimal(other_pid as nat), decimal(
        b as nat,
    ));
    decimal_injective(pid as nat, other_pid as nat);
    decimal_injective(a as nat, b as nat);
}

/// Claim names tell recoverers apart: two claims on one key have the same name
/// only if they have the same process id, the same nonce and the same number.
pub proof fn claim_names_are_distinct(
    stem: Seq<char>,
    pid: u32,
    nonce: u32,
    n: u32,
    other_pid: u32,
    other_nonce: u32,
    m: u32,
)
    requires
        name_of(stem, pid, nonce, FileRef::Claim(n)) == name_of(
            stem,
            other_pid,
            other_nonce,
            FileRef::Claim(m),
        ),
    ensures
        pid == other_pid,
        nonce == other_nonce,
        n == m,
{
    let p = class_prefix(stem, "recovering"@);
    let hx = hex_padded(nonce as nat, 8) + seq!['.'] + decimal(n as nat);
    let hy = hex_padded(other_nonce as nat, 8) + seq!['.'] + decimal(m as nat);
    let x = decimal(pid as nat) + seq!['.'] + hx;
    let y = decimal(other_pid as nat) + seq!['.'] + hy;
    assert(nonced(p, pid, nonce, n) =~= p + x);
    assert(nonced(p, other_pid, other_nonce, m) =~= p + y);
    assert((p + x).skip(p.len() as int) =~= x);
    assert((p + y).skip(p.len() as int) =~= y);
    decimal_has_no_dot(pid as nat);
    decimal_has_no_dot(other_pid as nat);
    split_at_dot(decimal(pid as nat), hx, decimal(other_pid as nat), hy);
    hex_padded_shape(nonce as nat, 8);
    hex_padded_shape(other_nonce as nat, 8);
    split_at_dot(
        hex_padded(nonce as nat, 8),
        decimal(n as nat),
        hex_padded(other_nonce as nat, 8),
        decimal(m as nat),
    );
    decimal_injective(pid as nat, other_pid as nat);
    decimal_injective(n as nat, m as nat);
    reveal_with_fuel(hex_bound, 9);
    hex_padded_injective(nonce as nat, other_nonce as nat, 8);
}

/// Different files of one process have different names.
pub proof fn file_names_are_distinct(
    stem: Seq<char>,
    pid: u32,
    nonce: u32,
    a: FileRef,
    b: FileRef,
)
    requires
        name_of(stem, pid, nonce, a) is Some,
        name_of(stem, pid, nonce, a) == name_of(stem, pid, nonce, b),
    ensures
        a == b,
{
    class_words();
    let name = name_of(stem, pid, nonce, a)->0;
    let ca = class_of(a);
    let cb = class_of(b);
    if a is Final || b is Final {
        if a !is Final {
            names_by_class(stem, pid, nonce, a);
        }
        if b !is Final {
            names_by_class(stem, pid, nonce, b);
        }
    } else {
        names_by_class(stem, pid, nonce, a);
        names_by_class(stem, pid, nonce, b);
        classes_are_disjoint(stem, name, ca, cb);
        if a is Claim {
            claim_names_are_distinct(stem, pid, nonce, a->Claim_0, pid, nonce, b->Claim_0);
        } else {
            numbered_injective(class_prefix(stem, ca), pid, number_of(a), pid, number_of(b));
        }
    }
}

/// The class of a file of the process other than the identity key.
pub open spec fn class_of(file: FileRef) -> Seq<char> {
    match file {
        FileRef::Temp(_) => "tmp"@,
        FileRef::Marker(_) => "publishing"@,
        FileRef::Claim(_) => "recovering"@,
        FileRef::Quarantine(_) => "quarantined"@,
        _ => "superseded"@,
    }
}

spec fn number_of(file: FileRef) -> u32 {
    match file {
        FileRef::Temp(n) => n,
        FileRef::Marker(n) => n,
        FileRef::Claim(n) => n,
        FileRef::Quarantine(n) => n,
        FileRef::Superseded(n) => n,
        _ => 0,
    }
}

/// A file of the process, other than the identity key, has its class's prefix.
pub proof fn names_by_class(stem: Seq<char>, pid: u32, nonce: u32, file: FileRef)
    requires
        file !is Final,
        file !is Listed,
    ensures
        has_prefix(name_of(stem, pid, nonce, file)->0, class_prefix(stem, class_of(file))),
        name_of(stem, pid, nonce, file)->0 != stem,
{
    let p = class_prefix(stem, class_of(file));
    let name = name_of(stem, pid, nonce, file)->0;
    let rest = name.skip(p.len() as int);
    assert(name =~= p + rest);
    names_have_their_prefix(stem, class_of(file), rest);
}

/// The names of the files in words: the identity key has the stem for its name, and
/// each file beside it the class, the process and its number; a claim has the nonce
/// between the two, in eight hexadecimal digits.
pub proof fn names_in_words(stem: Seq<char>, pid: u32, nonce: u32, n: u32)
    ensures
        ({
            let process = decimal(pid as nat) + "."@;
            let number = decimal(n as nat);
            let mine = |file: FileRef| name_of(stem, pid, nonce, file);
            &&& mine(FileRef::Final) == Some(stem)
            &&& mine(FileRef::Temp(n)) == Some("."@ + stem + ".tmp."@ + process + number)
            &&& mine(FileRef::Marker(n)) == Some("."@ + stem + ".publishing."@ + process + number)
            &&& mine(FileRef::Quarantine(n)) == Some(
                "."@ + stem + ".quarantined."@ + process + number,
            )
            &&& mine(FileRef::Superseded(n)) == Some(
                "."@ + stem + ".superseded."@ + process + number,
            )
            &&& mine(FileRef::Claim(n)) == Some(
                "."@ + stem + ".recovering."@ + process + hex_padded(nonce as nat, 8) + "."@
                    + number,
            )
        }),
{
    reveal_strlit(".");
    reveal_strlit("tmp");
    reveal_strlit(".tmp.");
    reveal_strlit("publishing");
    reveal_strlit(".publishing.");
    reveal_strlit("quarantined");
    reveal_strlit(".quarantined.");
    reveal_strlit("superseded");
    reveal_strlit(".superseded.");
    reveal_strlit("recovering");
    reveal_strlit(".recovering.");
    let process = decimal(pid as nat) + "."@;
    let number = decimal(n as nat);
    assert(name_of(stem, pid, nonce, FileRef::Temp(n))->0 =~= "."@ + stem + ".tmp."@ + process
        + number);
    assert(name_of(stem, pid, nonce, FileRef::Marker(n))->0 =~= "."@ + stem + ".publishing."@
        + process + number);
    assert(name_of(stem, pid, nonce, FileRef::Quarantine(n))->0 =~= "."@ + stem + ".quarantined."@
        + process + number);
    assert(name_of(stem, pid, nonce, FileRef::Superseded(n))->0 =~= "."@ + stem + ".superseded."@
        + process + number);
    assert(name_of(stem, pid, nonce, FileRef::Claim(n))->0 =~= "."@ + stem + ".recovering."@
        + process + hex_padded(nonce as nat, 8) + "."@ + number);
}

/// The nonce holds all bits of the clock and of the address: each half of the two
/// goes into it.
pub proof fn the_nonce_folds_both_halves(nanos: u64, address: u64)
    ensures
        claim_nonce_spec(nanos, address) == (nanos as u32) ^ ((nanos >> 32) as u32) ^ (
        address as u32) ^ ((address >> 32) as u32),
{
    let mixed = nanos ^ address;
    assert((mixed ^ (mixed >> 32)) as u32 == (nanos as u32) ^ ((nanos >> 32) as u32) ^ (
    address as u32) ^ ((address >> 32) as u32)) by (bit_vector)
        requires
            mixed == nanos ^ address,
    ;
}

} // verus!
