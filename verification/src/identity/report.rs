//! What a start that has no identity key tells its operator: the failure in words, from the
//! outermost reason to the innermost.

use vstd::arithmetic::power::pow;
use vstd::prelude::*;

use crate::identity::boot::KeyFailure;
use crate::identity::load::LoadError;
use crate::identity::names::{
    class_prefix, file_name, name_of, publishing_prefix, temp_prefix,
};
use crate::identity::ops::{FileRef, IoError};
use crate::identity::publish::{link_error, Insecure, PublishFailure};
use crate::identity::recover::RecoverFailure;
use crate::text::{
    concat2, concat3, decimal, decimal_string, digit, digit_char, digit_characters_in_numbers, lines,
    places_shift,
};

verus! {

/// Where the identity key lies, and whose files lie beside it.
#[derive(Debug)]
pub struct KeyPlace {
    /// The path of the identity key.
    pub path: String,
    /// Its directory.
    pub dir: String,
    /// Its file name.
    pub stem: String,
    /// The process.
    pub pid: u32,
    /// The process's claim nonce.
    pub nonce: u32,
}

/// What the caller knows of one error: the file that the operation was on, and the error.
#[derive(Debug)]
pub struct ErrorText {
    pub file: String,
    pub text: String,
}

/// What the caller knows of one listed file: its path and its name.
#[derive(Debug)]
pub struct ListedText {
    pub path: String,
    pub name: String,
}

/// What the caller has kept of the operations: the errors and the listed files, by their
/// numbers, and the numbers of the files in the last listing of claims.
#[derive(Debug)]
pub struct KeyTexts {
    pub errors: Vec<ErrorText>,
    pub listed: Vec<ListedText>,
    pub claims: Vec<u64>,
}

/// `n` written in octal, without leading zeros.
pub open spec fn octal(n: nat) -> Seq<char>
    decreases n,
{
    if n < 8 {
        seq![digit_char(n)]
    } else {
        octal(n / 8).push(digit_char(n % 8))
    }
}

/// `n` written in octal.
pub fn octal_string(n: u32) -> (r: String)
    ensures
        r@ == octal(n as nat),
    decreases n,
{
    if n < 8 {
        let mut out = String::new();
        out.push(digit(n as u64));
        assert(out@ =~= octal(n as nat));
        out
    } else {
        let mut out = octal_string(n / 8);
        out.push(digit((n % 8) as u64));
        out
    }
}

/// A file of a directory.
pub open spec fn path_in(dir: Seq<char>, name: Seq<char>) -> Seq<char> {
    if dir.len() > 0 && dir.last() == '/' {
        dir + name
    } else {
        dir + "/"@ + name
    }
}

fn path_of(dir: &str, name: &str) -> (r: String)
    ensures
        r@ == path_in(dir@, name@),
{
    let chars = crate::text::chars_of(dir);
    if chars.len() > 0 && chars[chars.len() - 1] == '/' {
        concat2(dir, name)
    } else {
        concat3(dir, "/", name)
    }
}

/// The words of an error; none are kept of a number that was never given out.
pub open spec fn error_text(t: KeyTexts, id: u64) -> Seq<char> {
    if id < t.errors@.len() {
        t.errors@[id as int].text@
    } else {
        Seq::empty()
    }
}

/// The file of an error.
pub open spec fn error_file(t: KeyTexts, id: u64) -> Seq<char> {
    if id < t.errors@.len() {
        t.errors@[id as int].file@
    } else {
        Seq::empty()
    }
}

/// The path of a listed file.
pub open spec fn listed_file(t: KeyTexts, id: u64) -> Seq<char> {
    if id < t.listed@.len() {
        t.listed@[id as int].path@
    } else {
        Seq::empty()
    }
}

/// The name of a listed file.
pub open spec fn listed_name(t: KeyTexts, id: u64) -> Seq<char> {
    if id < t.listed@.len() {
        t.listed@[id as int].name@
    } else {
        Seq::empty()
    }
}

fn text_of(t: &KeyTexts, id: u64) -> (r: String)
    ensures
        r@ == error_text(*t, id),
{
    if id < t.errors.len() as u64 {
        t.errors[id as usize].text.as_str().to_owned()
    } else {
        let out = String::new();
        assert(out@ =~= Seq::<char>::empty());
        out
    }
}

fn file_of(t: &KeyTexts, id: u64) -> (r: String)
    ensures
        r@ == error_file(*t, id),
{
    if id < t.errors.len() as u64 {
        t.errors[id as usize].file.as_str().to_owned()
    } else {
        let out = String::new();
        assert(out@ =~= Seq::<char>::empty());
        out
    }
}

fn listed_of(t: &KeyTexts, id: u64) -> (r: String)
    ensures
        r@ == listed_file(*t, id),
{
    if id < t.listed.len() as u64 {
        t.listed[id as usize].path.as_str().to_owned()
    } else {
        let out = String::new();
        assert(out@ =~= Seq::<char>::empty());
        out
    }
}

fn listed_name_of(t: &KeyTexts, id: u64) -> (r: String)
    ensures
        r@ == listed_name(*t, id),
{
    if id < t.listed.len() as u64 {
        t.listed[id as usize].name.as_str().to_owned()
    } else {
        let out = String::new();
        assert(out@ =~= Seq::<char>::empty());
        out
    }
}

/// A text in quotes, with escapes, as `std::fmt::Debug` for `str` writes it.
pub uninterp spec fn debug_text(text: Seq<char>) -> Seq<char>;

/// `std::fmt::Debug` for `str`: what is written is determined by the text.
#[verifier::external_body]
fn quoted(text: &str) -> (r: String)
    ensures
        r@ == debug_text(text@),
{
    format!("{text:?}")
}

/// The names of these listed files, each in quotes, with a comma between them.
pub open spec fn quoted_names(t: KeyTexts, ids: Seq<u64>) -> Seq<char>
    decreases ids.len(),
{
    if ids.len() == 0 {
        Seq::empty()
    } else if ids.len() == 1 {
        debug_text(listed_name(t, ids[0]))
    } else {
        quoted_names(t, ids.drop_last()) + ", "@ + debug_text(listed_name(t, ids.last()))
    }
}

/// The claims that were listed last, by their names.
pub open spec fn claim_list(t: KeyTexts) -> Seq<char> {
    "["@ + quoted_names(t, t.claims@) + "]"@
}

fn list_of_claims(t: &KeyTexts) -> (r: String)
    ensures
        r@ == claim_list(*t),
{
    let mut out = String::new();
    let mut i: usize = 0;
    assert(out@ =~= quoted_names(*t, t.claims@.take(0)));
    while i < t.claims.len()
        invariant
            i <= t.claims.len(),
            out@ == quoted_names(*t, t.claims@.take(i as int)),
        decreases t.claims.len() - i,
    {
        let name = quoted(listed_name_of(t, t.claims[i]).as_str());
        proof {
            let longer = t.claims@.take(i as int + 1);
            assert(longer.drop_last() =~= t.claims@.take(i as int));
            assert(longer.last() == t.claims@[i as int]);
        }
        if i == 0 {
            out = name;
        } else {
            out = concat3(out.as_str(), ", ", name.as_str());
        }
        i = i + 1;
    }
    assert(t.claims@.take(t.claims@.len() as int) =~= t.claims@);
    concat3("[", out.as_str(), "]")
}

/// A file whose mode is another than 0600.
pub open spec fn mode_text(path: Seq<char>, mode: u32) -> Seq<char> {
    "identity key "@ + path + " has mode "@ + octal((mode & 0o777) as nat)
        + ", expected 0600 \u{2014} refusing to use a world/group-readable private key"@
}

fn mode_message(path: &str, mode: u32) -> (r: String)
    ensures
        r@ == mode_text(path@, mode),
{
    let head = concat3("identity key ", path, " has mode ");
    concat3(
        head.as_str(),
        octal_string(mode & 0o777).as_str(),
        ", expected 0600 \u{2014} refusing to use a world/group-readable private key",
    )
}

/// Why a just-created file could not be secured.
pub open spec fn insecure_report(file: Seq<char>, cause: Insecure, t: KeyTexts) -> Seq<Seq<char>> {
    let head = "could not secure just-created identity key "@ + file + " to 0600"@;
    match cause {
        Insecure::Tighten(e) => seq![head, error_text(t, e.id)],
        Insecure::Stat(e) => seq![
            head,
            "stat identity key "@ + file,
            error_text(t, e.id),
        ],
        Insecure::Mode(m) => seq![head, mode_text(file, m)],
    }
}

fn report_insecure(file: &str, cause: Insecure, t: &KeyTexts) -> (r: Vec<String>)
    ensures
        lines(r@) == insecure_report(file@, cause, *t),
{
    let head = concat3("could not secure just-created identity key ", file, " to 0600");
    let mut out: Vec<String> = Vec::new();
    out.push(head);
    match cause {
        Insecure::Tighten(e) => {
            out.push(text_of(t, e.id));
        },
        Insecure::Stat(e) => {
            out.push(concat2("stat identity key ", file));
            out.push(text_of(t, e.id));
        },
        Insecure::Mode(m) => {
            out.push(mode_message(file, m));
        },
    }
    assert(lines(out@) =~= insecure_report(file@, cause, *t));
    out
}

/// Why a key could not be loaded.
pub open spec fn load_report(e: LoadError, p: KeyPlace, t: KeyTexts) -> Seq<Seq<char>> {
    match e {
        LoadError::Tighten(io) => seq![
            "could not tighten identity key "@ + p.path@ + " to 0600"@,
            error_text(t, io.id),
        ],
        LoadError::Stat(io) => seq!["stat identity key "@ + p.path@, error_text(t, io.id)],
        LoadError::Mode(m) => seq![mode_text(p.path@, m)],
        LoadError::Read(io) => seq![
            "failed to read key from "@ + p.path@,
            error_text(t, io.id),
        ],
        LoadError::Content(id) => seq!["invalid PEM key: "@ + error_text(t, id)],
    }
}

/// Why a key could not be loaded, in words.
pub fn report_load(e: &LoadError, p: &KeyPlace, t: &KeyTexts) -> (r: Vec<String>)
    ensures
        lines(r@) == load_report(*e, *p, *t),
{
    let mut out: Vec<String> = Vec::new();
    match *e {
        LoadError::Tighten(io) => {
            out.push(
                concat3("could not tighten identity key ", p.path.as_str(), " to 0600"),
            );
            out.push(text_of(t, io.id));
        },
        LoadError::Stat(io) => {
            out.push(concat2("stat identity key ", p.path.as_str()));
            out.push(text_of(t, io.id));
        },
        LoadError::Mode(m) => {
            out.push(mode_message(p.path.as_str(), m));
        },
        LoadError::Read(io) => {
            out.push(concat2("failed to read key from ", p.path.as_str()));
            out.push(text_of(t, io.id));
        },
        LoadError::Content(id) => {
            out.push(concat2("invalid PEM key: ", text_of(t, id).as_str()));
        },
    }
    assert(lines(out@) =~= load_report(*e, *p, *t));
    out
}

/// The remark on the link that failed first.
pub open spec fn link_text(link: IoError, t: KeyTexts) -> Seq<char> {
    "(link failed: "@ + error_text(t, link.id) + ")"@
}

fn link_remark(link: IoError, t: &KeyTexts) -> (r: String)
    ensures
        r@ == link_text(link, *t),
{
    concat3("(link failed: ", text_of(t, link.id).as_str(), ")")
}

/// The temporary file with this number.
pub open spec fn temp_path(p: KeyPlace, n: u32) -> Seq<char> {
    path_in(p.dir@, name_of(p.stem@, p.pid, p.nonce, FileRef::Temp(n))->0)
}

/// The quarantined key with this number.
pub open spec fn quarantine_path(p: KeyPlace, n: u32) -> Seq<char> {
    path_in(p.dir@, name_of(p.stem@, p.pid, p.nonce, FileRef::Quarantine(n))->0)
}

/// Why a publish failed.
pub open spec fn publish_report(f: PublishFailure, p: KeyPlace, t: KeyTexts) -> Seq<Seq<char>> {
    match f {
        PublishFailure::TempCreate(e) => seq![
            "create temp key "@ + error_file(t, e.id),
            error_text(t, e.id),
        ],
        PublishFailure::TempNamesTaken => seq![
            "all 64 temp key names "@ + class_prefix(p.stem@, "tmp"@) + decimal(p.pid as nat)
                + ".* in "@ + p.dir@
                + " are taken; remove the stale temp files and restart"@,
        ],
        PublishFailure::TempInsecure { n, cause } => insecure_report(temp_path(p, n), cause, t),
        PublishFailure::TempWrite(e) => seq![
            "failed to write key to "@ + error_file(t, e.id),
            error_text(t, e.id),
        ],
        PublishFailure::LinkedDirSync(e) => seq![error_text(t, e.id)],
        PublishFailure::MarkerCreate { error, link } => seq![
            "create publish marker "@ + error_file(t, error.id) + " in hard_link fallback "@
                + link_text(link, t),
            error_text(t, error.id),
        ],
        PublishFailure::MarkerNamesTaken { link } => seq![
            "all 64 publish marker names "@ + class_prefix(p.stem@, "publishing"@) + decimal(
                p.pid as nat,
            ) + ".* in "@ + p.dir@
                + " are taken; remove the stale marker files and restart "@ + link_text(link, t),
        ],
        PublishFailure::FinalCreate { error, link } => seq![
            "create identity key "@ + p.path@ + " in hard_link fallback "@ + link_text(link, t),
            error_text(t, error.id),
        ],
        PublishFailure::FinalInsecure { cause, link } => seq![
            "secure identity key in hard_link fallback "@ + link_text(link, t),
        ] + insecure_report(p.path@, cause, t),
        PublishFailure::FinalWrite { error, link } => seq![
            "hard_link fallback publish to "@ + p.path@ + " "@ + link_text(link, t),
            "failed to write key to "@ + p.path@
                + "; the partial final and its publish marker are left in place for boot-time crash recovery"@,
            error_text(t, error.id),
        ],
        PublishFailure::FinalSync { error, link } => seq![
            "fsync identity key "@ + p.path@
                + " in hard_link fallback (durability failed; the final and its publish marker are left in place for boot-time crash recovery; link failed: "@
                + error_text(t, link.id) + ")"@,
            error_text(t, error.id),
        ],
        PublishFailure::FinalDirSync { error, link } => seq![
            "flush the directory of identity key "@ + p.path@ + " in hard_link fallback "@
                + link_text(link, t),
            error_text(t, error.id),
        ],
        PublishFailure::Unsettled { marker, link } => seq![
            "fallback publish of "@ + p.path@
                + " was demoted by a recovering peer, and the recovery round did not settle within the wait bound; failing the publish closed instead of loading a possibly pre-settlement key (marker removal failed: "@
                + error_text(t, marker.id) + ") "@ + link_text(link, t),
            "recovery round did not settle within the 11s wait bound: recovery claim(s) "@
                + claim_list(t) + " still present beside "@ + p.path@,
        ],
    }
}

/// Why a publish failed, in words.
pub fn report_publish(f: &PublishFailure, p: &KeyPlace, t: &KeyTexts) -> (r: Vec<String>)
    ensures
        lines(r@) == publish_report(*f, *p, *t),
{
    let mut out: Vec<String> = Vec::new();
    match *f {
        PublishFailure::TempCreate(e) => {
            out.push(concat2("create temp key ", file_of(t, e.id).as_str()));
            out.push(text_of(t, e.id));
        },
        PublishFailure::TempNamesTaken => {
            let names = concat3(
                "all 64 temp key names ",
                temp_prefix(p.stem.as_str()).as_str(),
                decimal_string(p.pid as u64).as_str(),
            );
            let place = concat3(names.as_str(), ".* in ", p.dir.as_str());
            out.push(
                concat2(
                    place.as_str(),
                    " are taken; remove the stale temp files and restart",
                ),
            );
        },
        PublishFailure::TempInsecure { n, cause } => {
            let name = match file_name(p.stem.as_str(), p.pid, p.nonce, FileRef::Temp(n)) {
                Some(name) => name,
                None => String::new(),
            };
            let file = path_of(p.dir.as_str(), name.as_str());
            return report_insecure(file.as_str(), cause, t);
        },
        PublishFailure::TempWrite(e) => {
            out.push(concat2("failed to write key to ", file_of(t, e.id).as_str()));
            out.push(text_of(t, e.id));
        },
        PublishFailure::LinkedDirSync(e) => {
            out.push(text_of(t, e.id));
        },
        PublishFailure::MarkerCreate { error, link } => {
            let head = concat3(
                "create publish marker ",
                file_of(t, error.id).as_str(),
                " in hard_link fallback ",
            );
            out.push(concat2(head.as_str(), link_remark(link, t).as_str()));
            out.push(text_of(t, error.id));
        },
        PublishFailure::MarkerNamesTaken { link } => {
            let names = concat3(
                "all 64 publish marker names ",
                publishing_prefix(p.stem.as_str()).as_str(),
                decimal_string(p.pid as u64).as_str(),
            );
            let place = concat3(names.as_str(), ".* in ", p.dir.as_str());
            out.push(
                concat3(
                    place.as_str(),
                    " are taken; remove the stale marker files and restart ",
                    link_remark(link, t).as_str(),
                ),
            );
        },
        PublishFailure::FinalCreate { error, link } => {
            let head = concat3(
                "create identity key ",
                p.path.as_str(),
                " in hard_link fallback ",
            );
            out.push(concat2(head.as_str(), link_remark(link, t).as_str()));
            out.push(text_of(t, error.id));
        },
        PublishFailure::FinalInsecure { cause, link } => {
            out.push(
                concat2(
                    "secure identity key in hard_link fallback ",
                    link_remark(link, t).as_str(),
                ),
            );
            let mut inner = report_insecure(p.path.as_str(), cause, t);
            let ghost head = out@;
            let ghost tail = inner@;
            out.append(&mut inner);
            assert(lines(out@) =~= lines(head) + lines(tail));
        },
        PublishFailure::FinalWrite { error, link } => {
            let head = concat3("hard_link fallback publish to ", p.path.as_str(), " ");
            out.push(concat2(head.as_str(), link_remark(link, t).as_str()));
            out.push(
                concat3(
                    "failed to write key to ",
                    p.path.as_str(),
                    "; the partial final and its publish marker are left in place for boot-time crash recovery",
                ),
            );
            out.push(text_of(t, error.id));
        },
        PublishFailure::FinalSync { error, link } => {
            let head = concat3(
                "fsync identity key ",
                p.path.as_str(),
                " in hard_link fallback (durability failed; the final and its publish marker are left in place for boot-time crash recovery; link failed: ",
            );
            out.push(concat3(head.as_str(), text_of(t, link.id).as_str(), ")"));
            out.push(text_of(t, error.id));
        },
        PublishFailure::FinalDirSync { error, link } => {
            let head = concat3(
                "flush the directory of identity key ",
                p.path.as_str(),
                " in hard_link fallback ",
            );
            out.push(concat2(head.as_str(), link_remark(link, t).as_str()));
            out.push(text_of(t, error.id));
        },
        PublishFailure::Unsettled { marker, link } => {
            let head = concat3(
                "fallback publish of ",
                p.path.as_str(),
                " was demoted by a recovering peer, and the recovery round did not settle within the wait bound; failing the publish closed instead of loading a possibly pre-settlement key (marker removal failed: ",
            );
            let cause = concat3(head.as_str(), text_of(t, marker.id).as_str(), ") ");
            out.push(concat2(cause.as_str(), link_remark(link, t).as_str()));
            let left = concat3(
                "recovery round did not settle within the 11s wait bound: recovery claim(s) ",
                list_of_claims(t).as_str(),
                " still present beside ",
            );
            out.push(concat2(left.as_str(), p.path.as_str()));
        },
    }
    assert(lines(out@) =~= publish_report(*f, *p, *t));
    out
}

/// Whether a text holds another one.
pub open spec fn mentions(text: Seq<char>, part: Seq<char>) -> bool {
    exists|i: int|
        0 <= i && i + part.len() <= text.len() && #[trigger] text.subrange(i, i + part.len())
            == part
}

proof fn mentions_the_middle(a: Seq<char>, b: Seq<char>, c: Seq<char>)
    ensures
        mentions(a + b + c, b),
{
    let whole = a + b + c;
    let at = a.len() as int;
    assert(whole.subrange(at, at + b.len()) =~= b);
}

proof fn mentions_within(a: Seq<char>, b: Seq<char>, c: Seq<char>, part: Seq<char>)
    requires
        mentions(b, part),
    ensures
        mentions(a + b + c, part),
{
    let i = choose|i: int|
        0 <= i && i + part.len() <= b.len() && #[trigger] b.subrange(i, i + part.len()) == part;
    let at = a.len() + i;
    assert((a + b + c).subrange(at, at + part.len()) =~= b.subrange(i, i + part.len()));
}

proof fn quoted_names_have_each(t: KeyTexts, ids: Seq<u64>, i: int)
    requires
        0 <= i < ids.len(),
    ensures
        mentions(quoted_names(t, ids), debug_text(listed_name(t, ids[i]))),
    decreases ids.len(),
{
    let none = Seq::<char>::empty();
    if ids.len() == 1 {
        let name = debug_text(listed_name(t, ids[0]));
        mentions_the_middle(none, name, none);
        assert(none + name + none =~= name);
    } else {
        let before = quoted_names(t, ids.drop_last());
        let name = debug_text(listed_name(t, ids.last()));
        if i < ids.len() - 1 {
            quoted_names_have_each(t, ids.drop_last(), i);
            mentions_within(none, before, ", "@ + name, debug_text(listed_name(t, ids[i])));
            assert(none + before + (", "@ + name) =~= quoted_names(t, ids));
        } else {
            mentions_the_middle(before + ", "@, name, none);
            assert(before + ", "@ + name + none =~= quoted_names(t, ids));
        }
    }
}

/// A publish that gave up on an unsettled round names every claim that was still
/// there: the names stand, in quotes, in the second line of the report.
pub proof fn reports_name_the_claims_left(f: PublishFailure, p: KeyPlace, t: KeyTexts, i: int)
    requires
        f is Unsettled,
        0 <= i < t.claims@.len(),
    ensures
        publish_report(f, p, t).len() == 2,
        mentions(publish_report(f, p, t)[1], debug_text(listed_name(t, t.claims@[i]))),
{
    let name = debug_text(listed_name(t, t.claims@[i]));
    quoted_names_have_each(t, t.claims@, i);
    mentions_within("["@, quoted_names(t, t.claims@), "]"@, name);
    let head = "recovery round did not settle within the 11s wait bound: recovery claim(s) "@;
    let tail = " still present beside "@ + p.path@;
    mentions_within(head, claim_list(t), tail, name);
    assert(head + claim_list(t) + tail =~= publish_report(f, p, t)[1]);
}

/// A failure that carries the link's error names it: the words of that error
/// stand in the first line of the report.
pub proof fn reports_name_the_link_error(f: PublishFailure, p: KeyPlace, t: KeyTexts)
    ensures
        publish_report(f, p, t).len() > 0,
        link_error(f) matches Some(link) ==> mentions(
            publish_report(f, p, t)[0],
            error_text(t, link.id),
        ),
{
    if let Some(link) = link_error(f) {
        reveal_strlit(")");
        let line = publish_report(f, p, t)[0];
        let words = error_text(t, link.id);
        let head = line.take(line.len() - words.len() - 1);
        assert(line =~= head + words + ")"@);
        mentions_the_middle(head, words, ")"@);
    }
}

/// Why a recovery failed.
pub open spec fn recover_report(f: RecoverFailure, p: KeyPlace, t: KeyTexts) -> Seq<Seq<char>> {
    match f {
        RecoverFailure::Reparse(e) => seq![
            "transient failure re-parsing identity key "@ + p.path@
                + " after claiming crash recovery; claims released, nothing quarantined"@,
        ] + load_report(e, p, t),
        RecoverFailure::Stuck { load, error } => seq![
            "could not quarantine or remove corrupt identity key "@ + p.path@
                + " during crash recovery: "@ + error_text(t, error.id),
        ] + load_report(load, p, t),
        RecoverFailure::Restore { quarantine, why } => seq![
            "could not restore the completed identity key to "@ + p.path@
                + " during crash recovery; quarantine kept at "@ + quarantine_path(p, quarantine),
        ] + publish_report(why, p, t),
    }
}

/// Why a recovery failed, in words.
pub fn report_recover(f: &RecoverFailure, p: &KeyPlace, t: &KeyTexts) -> (r: Vec<String>)
    ensures
        lines(r@) == recover_report(*f, *p, *t),
{
    let mut out: Vec<String> = Vec::new();
    let mut inner: Vec<String>;
    match *f {
        RecoverFailure::Reparse(e) => {
            out.push(
                concat3(
                    "transient failure re-parsing identity key ",
                    p.path.as_str(),
                    " after claiming crash recovery; claims released, nothing quarantined",
                ),
            );
            inner = report_load(&e, p, t);
        },
        RecoverFailure::Stuck { load, error } => {
            let head = concat3(
                "could not quarantine or remove corrupt identity key ",
                p.path.as_str(),
                " during crash recovery: ",
            );
            out.push(concat2(head.as_str(), text_of(t, error.id).as_str()));
            inner = report_load(&load, p, t);
        },
        RecoverFailure::Restore { quarantine, why } => {
            let name = match file_name(
                p.stem.as_str(),
                p.pid,
                p.nonce,
                FileRef::Quarantine(quarantine),
            ) {
                Some(name) => name,
                None => String::new(),
            };
            let head = concat3(
                "could not restore the completed identity key to ",
                p.path.as_str(),
                " during crash recovery; quarantine kept at ",
            );
            out.push(concat2(head.as_str(), path_of(p.dir.as_str(), name.as_str()).as_str()));
            inner = report_publish(&why, p, t);
        },
    }
    let ghost head = out@;
    let ghost tail = inner@;
    out.append(&mut inner);
    assert(lines(out@) =~= lines(head) + lines(tail));
    assert(lines(out@) =~= recover_report(*f, *p, *t));
    out
}

/// Why the node has no identity key.
pub open spec fn key_report(f: KeyFailure, p: KeyPlace, t: KeyTexts) -> Seq<Seq<char>> {
    match f {
        KeyFailure::Load(e) => load_report(e, p, t),
        KeyFailure::Recover(why) => recover_report(why, p, t),
        KeyFailure::Adopt { id, why } => seq![
            "could not republish the completed identity key stranded at "@ + listed_file(t, id)
                + "; quarantine kept"@,
        ] + publish_report(why, p, t),
        KeyFailure::Generate(e) => seq!["failed to serialize key: "@ + error_text(t, e.id)],
        KeyFailure::CreateParent(e) => seq![error_text(t, e.id)],
        KeyFailure::Publish(why) => publish_report(why, p, t),
    }
}

/// Why the node has no identity key, in words: the outermost reason first.
pub fn report_key(f: &KeyFailure, p: &KeyPlace, t: &KeyTexts) -> (r: Vec<String>)
    ensures
        lines(r@) == key_report(*f, *p, *t),
{
    match *f {
        KeyFailure::Load(e) => report_load(&e, p, t),
        KeyFailure::Recover(why) => report_recover(&why, p, t),
        KeyFailure::Adopt { id, why } => {
            let mut out: Vec<String> = Vec::new();
            out.push(
                concat3(
                    "could not republish the completed identity key stranded at ",
                    listed_of(t, id).as_str(),
                    "; quarantine kept",
                ),
            );
            let mut inner = report_publish(&why, p, t);
            let ghost head = out@;
            let ghost tail = inner@;
            out.append(&mut inner);
            assert(lines(out@) =~= lines(head) + lines(tail));
            out
        },
        KeyFailure::Generate(e) => {
            let mut out: Vec<String> = Vec::new();
            out.push(concat2("failed to serialize key: ", text_of(t, e.id).as_str()));
            assert(lines(out@) =~= key_report(*f, *p, *t));
            out
        },
        KeyFailure::CreateParent(e) => {
            let mut out: Vec<String> = Vec::new();
            out.push(text_of(t, e.id));
            assert(lines(out@) =~= key_report(*f, *p, *t));
            out
        },
        KeyFailure::Publish(why) => report_publish(&why, p, t),
    }
}

/// The digit of an octal numeral that stands `i` places before its end counts the
/// powers of eight.
pub proof fn octal_digits_count_powers_of_eight(n: nat, i: nat)
    ensures
        i < octal(n).len() ==> octal(n)[octal(n).len() - 1 - i] as int - 48 == (n as int / pow(
            8,
            i,
        )) % 8,
        n < pow(8, octal(n).len()),
        octal(n).len() > 1 ==> n >= pow(8, (octal(n).len() - 1) as nat),
        octal(n).len() >= 1,
    decreases n,
{
    reveal_with_fuel(pow, 2);
    if n < 8 {
        digit_characters_in_numbers(n);
    } else {
        let shorter = octal(n / 8);
        digit_characters_in_numbers(n % 8);
        if i > 0 {
            octal_digits_count_powers_of_eight(n / 8, (i - 1) as nat);
            places_shift(n, 8, (i - 1) as nat);
        } else {
            octal_digits_count_powers_of_eight(n / 8, 0);
        }
        let l = shorter.len();
        assert(pow(8, l + 1) == 8 * pow(8, l));
        if l > 1 {
            assert(pow(8, l) == 8 * pow(8, (l - 1) as nat));
        }
    }
}

/// A report on a mode names the file, and the nine permission bits in octal.
pub proof fn reports_name_the_permission_bits(path: Seq<char>, mode: u32)
    ensures
        mentions(mode_text(path, mode), path),
        mentions(mode_text(path, mode), octal((mode % 0o1000) as nat)),
{
    assert(mode & 0o777 == mode % 0o1000) by (bit_vector);
    let tail =
        ", expected 0600 \u{2014} refusing to use a world/group-readable private key"@;
    let bits = octal((mode % 0o1000) as nat);
    let head = "identity key "@ + path + " has mode "@;
    mentions_the_middle(head, bits, tail);
    mentions_the_middle("identity key "@, path, " has mode "@ + bits + tail);
    assert(mode_text(path, mode) =~= "identity key "@ + path + (" has mode "@ + bits + tail));
}

/// A slash at the end of a directory makes no difference to the paths in it.
pub proof fn directories_may_end_with_a_slash(dir: Seq<char>, name: Seq<char>)
    requires
        dir.len() == 0 || dir.last() != '/',
    ensures
        path_in(dir.push('/'), name) == path_in(dir, name),
        path_in(dir, name).take(dir.len() as int) == dir,
        path_in(dir, name).skip(dir.len() as int) == seq!['/'] + name,
{
    reveal_strlit("/");
    assert(path_in(dir.push('/'), name) =~= path_in(dir, name));
    assert(path_in(dir, name).take(dir.len() as int) =~= dir);
    assert(path_in(dir, name).skip(dir.len() as int) =~= seq!['/'] + name);
}

/// The error of a failure to load, if an operation failed.
pub open spec fn load_io_error(e: LoadError) -> Option<IoError> {
    match e {
        LoadError::Tighten(io) | LoadError::Stat(io) | LoadError::Read(io) => Some(io),
        _ => None,
    }
}

/// A report on a load names the identity key, and ends with the words of the error;
/// one on a mode has one line, with the bits.
pub proof fn load_reports_tell_key_and_error(e: LoadError, p: KeyPlace, t: KeyTexts)
    ensures
        load_io_error(e) matches Some(io) ==> load_report(e, p, t).len() == 2 && mentions(
            load_report(e, p, t)[0],
            p.path@,
        ) && load_report(e, p, t)[1] == error_text(t, io.id),
        e matches LoadError::Content(id) ==> load_report(e, p, t).len() == 1 && mentions(
            load_report(e, p, t)[0],
            error_text(t, id),
        ),
        e matches LoadError::Mode(m) ==> load_report(e, p, t).len() == 1 && mentions(
            load_report(e, p, t)[0],
            p.path@,
        ) && mentions(load_report(e, p, t)[0], octal((m % 0o1000) as nat)),
{
    let none = Seq::<char>::empty();
    match e {
        LoadError::Tighten(_) => {
            mentions_the_middle("could not tighten identity key "@, p.path@, " to 0600"@);
        },
        LoadError::Stat(_) => {
            mentions_the_middle("stat identity key "@, p.path@, none);
            assert("stat identity key "@ + p.path@ + none =~= load_report(e, p, t)[0]);
        },
        LoadError::Read(_) => {
            mentions_the_middle("failed to read key from "@, p.path@, none);
            assert("failed to read key from "@ + p.path@ + none =~= load_report(e, p, t)[0]);
        },
        LoadError::Content(id) => {
            mentions_the_middle("invalid PEM key: "@, error_text(t, id), none);
            assert("invalid PEM key: "@ + error_text(t, id) + none =~= load_report(e, p, t)[0]);
        },
        LoadError::Mode(m) => {
            reports_name_the_permission_bits(p.path@, m);
        },
    }
}

/// The innermost error of a failed publish, if an operation failed.
pub open spec fn publish_io_error(f: PublishFailure) -> Option<IoError> {
    match f {
        PublishFailure::TempCreate(e) | PublishFailure::TempWrite(e)
        | PublishFailure::LinkedDirSync(e) => Some(e),
        PublishFailure::MarkerCreate { error, .. } | PublishFailure::FinalCreate { error, .. }
        | PublishFailure::FinalWrite { error, .. } | PublishFailure::FinalSync { error, .. }
        | PublishFailure::FinalDirSync { error, .. } => Some(error),
        PublishFailure::TempInsecure { cause: Insecure::Tighten(e), .. }
        | PublishFailure::TempInsecure { cause: Insecure::Stat(e), .. }
        | PublishFailure::FinalInsecure { cause: Insecure::Tighten(e), .. }
        | PublishFailure::FinalInsecure { cause: Insecure::Stat(e), .. } => Some(e),
        _ => None,
    }
}

/// A report on a publish ends with the words of the error that it failed by.
pub proof fn publish_reports_end_with_the_error(f: PublishFailure, p: KeyPlace, t: KeyTexts)
    ensures
        publish_io_error(f) matches Some(e) ==> publish_report(f, p, t).last() == error_text(
            t,
            e.id,
        ),
        publish_report(f, p, t).len() > 0,
{
}

/// A report on a recovery begins with what the recovery did with the key, which it
/// names, and goes on with the report on what it failed by.
pub proof fn recovery_reports_go_on_with_the_reason(f: RecoverFailure, p: KeyPlace, t: KeyTexts)
    ensures
        recover_report(f, p, t).len() > 1,
        mentions(recover_report(f, p, t)[0], p.path@),
        recover_report(f, p, t).skip(1) == (match f {
            RecoverFailure::Reparse(e) => load_report(e, p, t),
            RecoverFailure::Stuck { load, .. } => load_report(load, p, t),
            RecoverFailure::Restore { why, .. } => publish_report(why, p, t),
        }),
        f matches RecoverFailure::Stuck { error, .. } ==> mentions(
            recover_report(f, p, t)[0],
            error_text(t, error.id),
        ),
        f matches RecoverFailure::Restore { quarantine, .. } ==> mentions(
            recover_report(f, p, t)[0],
            quarantine_path(p, quarantine),
        ),
{
    let none = Seq::<char>::empty();
    let line = recover_report(f, p, t)[0];
    match f {
        RecoverFailure::Reparse(e) => {
            assert(recover_report(f, p, t).skip(1) =~= load_report(e, p, t));
            mentions_the_middle(
                "transient failure re-parsing identity key "@,
                p.path@,
                " after claiming crash recovery; claims released, nothing quarantined"@,
            );
        },
        RecoverFailure::Stuck { load, error } => {
            assert(recover_report(f, p, t).skip(1) =~= load_report(load, p, t));
            let head = "could not quarantine or remove corrupt identity key "@;
            let words = error_text(t, error.id);
            mentions_the_middle(head, p.path@, " during crash recovery: "@ + words);
            assert(line =~= head + p.path@ + (" during crash recovery: "@ + words));
            mentions_the_middle(head + p.path@ + " during crash recovery: "@, words, none);
            assert(line =~= head + p.path@ + " during crash recovery: "@ + words + none);
        },
        RecoverFailure::Restore { quarantine, why } => {
            publish_reports_end_with_the_error(why, p, t);
            assert(recover_report(f, p, t).skip(1) =~= publish_report(why, p, t));
            let head = "could not restore the completed identity key to "@;
            let middle = " during crash recovery; quarantine kept at "@;
            let path = quarantine_path(p, quarantine);
            mentions_the_middle(head, p.path@, middle + path);
            assert(line =~= head + p.path@ + (middle + path));
            mentions_the_middle(head + p.path@ + middle, path, none);
            assert(line =~= head + p.path@ + middle + path + none);
        },
    }
}

/// The words and the file of an error are those that were kept under its number, and
/// so are the path and the name of a listed file.
pub proof fn reports_tell_what_was_kept(t: KeyTexts, id: u64)
    ensures
        forall|i: int|
            0 <= i < t.errors@.len() && i == id ==> error_text(t, id) == (
            #[trigger] t.errors@[i]).text@ && error_file(t, id) == t.errors@[i].file@,
        forall|i: int|
            0 <= i < t.listed@.len() && i == id ==> listed_file(t, id) == (
            #[trigger] t.listed@[i]).path@ && listed_name(t, id) == t.listed@[i].name@,
{
}

/// A report on a start goes on with the report on what it failed by; one on an
/// adoption begins with the file that is kept.
pub proof fn key_reports_go_on_with_the_reason(f: KeyFailure, p: KeyPlace, t: KeyTexts)
    ensures
        f matches KeyFailure::Load(e) ==> key_report(f, p, t) == load_report(e, p, t),
        f matches KeyFailure::Recover(why) ==> key_report(f, p, t) == recover_report(why, p, t),
        f matches KeyFailure::Publish(why) ==> key_report(f, p, t) == publish_report(why, p, t),
        f matches KeyFailure::Adopt { id, why } ==> key_report(f, p, t).skip(1) == publish_report(
            why,
            p,
            t,
        ) && mentions(key_report(f, p, t)[0], listed_file(t, id)),
        f matches KeyFailure::Generate(e) ==> key_report(f, p, t).len() == 1 && mentions(
            key_report(f, p, t)[0],
            error_text(t, e.id),
        ),
        f matches KeyFailure::CreateParent(e) ==> key_report(f, p, t) == seq![error_text(t, e.id)],
{
    match f {
        KeyFailure::Adopt { id, why } => {
            assert(key_report(f, p, t).skip(1) =~= publish_report(why, p, t));
            mentions_the_middle(
                "could not republish the completed identity key stranded at "@,
                listed_file(t, id),
                "; quarantine kept"@,
            );
        },
        KeyFailure::Generate(e) => {
            let none = Seq::<char>::empty();
            let words = error_text(t, e.id);
            mentions_the_middle("failed to serialize key: "@, words, none);
            assert("failed to serialize key: "@ + words + none =~= key_report(f, p, t)[0]);
        },
        _ => {},
    }
}

/// Why a just-created file could not be secured: the report names the file first, and
/// ends with the words of the error, or with the mode.
pub proof fn insecure_reports_name_the_file(file: Seq<char>, cause: Insecure, t: KeyTexts)
    ensures
        ({
            let r = insecure_report(file, cause, t);
            &&& r.len() > 1
            &&& mentions(r[0], file)
            &&& match cause {
                Insecure::Tighten(e) => r.last() == error_text(t, e.id),
                Insecure::Stat(e) => r.last() == error_text(t, e.id) && mentions(r[1], file),
                Insecure::Mode(m) => r.last() == mode_text(file, m),
            }
        }),
{
    let none = Seq::<char>::empty();
    mentions_the_middle("could not secure just-created identity key "@, file, " to 0600"@);
    mentions_the_middle("stat identity key "@, file, none);
    assert("stat identity key "@ + file + none =~= "stat identity key "@ + file);
}

} // verus!
