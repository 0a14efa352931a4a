use gitlawb_node::identity::boot::{KeyBoot, KeyEnd};
use gitlawb_node::identity::heartbeat::{beat_next, beat_op, claim_heartbeat, BeatEvent, BeatPhase};
use gitlawb_node::identity::listing::{
    list_adoptable_quarantines, list_publish_markers, list_recovery_claimables,
    list_recovery_claims, list_sibling_quarantines, list_stale_files, DirEntry,
};
use gitlawb_node::identity::load::{
    boot_load_key, boot_load_next, boot_load_op, load_existing_key, load_next, load_op,
    load_racing_key, BootLoad, BootLoadNext, LoadError, LoadNext,
};
use gitlawb_node::identity::names::{claim_nonce, file_name, publishing_prefix};
use gitlawb_node::identity::ops::{
    key_mode_ok, FileRef, IoError, IoKind, KeyOp, Reply, CLAIM_BEAT_GRANULE, CLAIM_SWEEP_MIN_AGE,
    CLAIM_WAIT_BOUND, CRASH_SIGNATURE_MIN_PERSIST, KEY_RACE_DEADLINE, KEY_TEMP_ATTEMPTS,
    MILLISECOND, RESWEEP_DELAY, SECOND,
};
use gitlawb_node::identity::publish::{
    publish_key_atomically, publish_next, publish_op, KeyPublish, PublishFailure, PublishNext,
};
use gitlawb_node::identity::recover::{CrashRecovery, Recovery};
use gitlawb_node::identity::report::{
    report_key, report_load, report_publish, ErrorText, KeyPlace, KeyTexts, ListedText,
};
use gitlawb_node::identity::sweep::{Sweep, SweepPhase};
use std::cell::RefCell;
use std::collections::BTreeMap;
use std::rc::Rc;

const DIR: &str = "/keys";
const KEY: &str = "identity.pem";
const PID: u32 = 4242;
const NONCE: u32 = 0x0badcafe;
const HOUR: i128 = 3_600_000_000_000;
const DAY: i128 = 24 * HOUR;

/// A file's content, its mode and its modification time.
struct Inode {
    bytes: Vec<u8>,
    mode: u32,
    modified: i128,
}

/// A live recovery's heartbeat: the claims by their names, and how far it has run.
struct Beat {
    phase: BeatPhase,
    claims: Vec<u32>,
    names: Vec<String>,
    clock: u64,
    pid: u32,
}

/// A directory with a clock.
struct Disk {
    names: BTreeMap<String, u64>,
    inodes: BTreeMap<u64, Inode>,
    next_inode: u64,
    now: u64,
    umask: u32,
    read_only: bool,
    next_key: u64,
    beats: Vec<Beat>,
}

type Shared = Rc<RefCell<Disk>>;

fn disk() -> Shared {
    Rc::new(RefCell::new(Disk {
        names: BTreeMap::new(),
        inodes: BTreeMap::new(),
        next_inode: 1,
        now: 7 * SECOND,
        umask: 0o022,
        read_only: false,
        next_key: 1,
        beats: Vec::new(),
    }))
}

fn pem(key: u64) -> String {
    format!("-----BEGIN KEY-----\n{key}\n-----END KEY-----\n")
}

fn parse(bytes: &[u8]) -> Result<u64, String> {
    let text = std::str::from_utf8(bytes).map_err(|e| e.to_string())?;
    text.strip_prefix("-----BEGIN KEY-----\n")
        .and_then(|t| t.strip_suffix("\n-----END KEY-----\n"))
        .and_then(|t| t.parse().ok())
        .ok_or_else(|| "no key in it".to_string())
}

impl Disk {
    fn wall(&self) -> i128 {
        DAY * 20_000 + self.now as i128
    }
    fn write(&mut self, name: &str, bytes: &[u8], mode: u32) {
        let wall = self.wall();
        if let Some(i) = self.names.get(name) {
            let inode = self.inodes.get_mut(i).unwrap();
            inode.bytes = bytes.to_vec();
            inode.modified = wall;
            return;
        }
        let id = self.next_inode;
        self.next_inode += 1;
        self.names.insert(name.to_string(), id);
        let inode = Inode {
            bytes: bytes.to_vec(),
            mode,
            modified: wall,
        };
        self.inodes.insert(id, inode);
    }
    fn read(&self, name: &str) -> Option<Vec<u8>> {
        self.names.get(name).map(|i| self.inodes[i].bytes.clone())
    }
    fn has(&self, name: &str) -> bool {
        self.names.contains_key(name)
    }
    fn mode(&self, name: &str) -> u32 {
        self.inodes[&self.names[name]].mode & 0o777
    }
    fn chmod(&mut self, name: &str, mode: u32) {
        let i = self.names[name];
        self.inodes.get_mut(&i).unwrap().mode = mode;
    }
    fn remove(&mut self, name: &str) -> bool {
        self.names.remove(name).is_some()
    }
    fn rename(&mut self, from: &str, to: &str) -> bool {
        match self.names.remove(from) {
            Some(i) => {
                self.names.insert(to.to_string(), i);
                true
            }
            None => false,
        }
    }
    fn age(&mut self, name: &str, by: i128) {
        let wall = self.wall();
        let i = self.names[name];
        self.inodes.get_mut(&i).unwrap().modified = wall - by;
    }
    fn age_of(&self, name: &str) -> i128 {
        self.wall() - self.inodes[&self.names[name]].modified
    }
    fn names_containing(&self, needle: &str) -> Vec<String> {
        self.names
            .keys()
            .filter(|n| n.contains(needle))
            .cloned()
            .collect()
    }
    fn new_key(&mut self) -> u64 {
        self.next_key += 1;
        self.next_key - 1
    }
    /// Lets time pass; the heartbeats run meanwhile.
    fn advance(&mut self, by: u64) {
        let target = self.now + by;
        for b in 0..self.beats.len() {
            loop {
                let (phase, n) = (self.beats[b].phase, self.beats[b].claims.len());
                let event = match beat_op(phase, &self.beats[b].claims) {
                    None if phase == BeatPhase::Stopped => break,
                    None => BeatEvent::Stop(false),
                    Some(KeyOp::Pause(t)) => {
                        if self.beats[b].clock + t > target {
                            break;
                        }
                        self.beats[b].clock += t;
                        BeatEvent::Done
                    }
                    Some(KeyOp::StampClaim(c)) => {
                        let at = self.beats[b].claims.iter().position(|x| *x == c).unwrap();
                        let name = self.beats[b].names[at].clone();
                        let time = DAY * 20_000 + self.beats[b].clock as i128;
                        match self.names.get(&name) {
                            Some(i) => {
                                self.inodes.get_mut(i).unwrap().modified = time;
                                BeatEvent::Done
                            }
                            None => BeatEvent::Failed,
                        }
                    }
                    Some(_) => BeatEvent::Failed,
                };
                self.beats[b].phase = beat_next(phase, event, n);
            }
        }
        self.now = target;
    }
}

type Hook = Box<dyn FnMut(&str, &KeyOp) -> Option<(IoKind, String)>>;

/// A start of the node: it performs the operations that the machines ask for.
struct Process {
    disk: Shared,
    pid: u32,
    nonce: u32,
    handle: u64,
    texts: KeyTexts,
    hook: Hook,
}

fn other(text: &str) -> Option<(IoKind, String)> {
    Some((IoKind::Other, text.to_string()))
}

fn start(d: &Shared) -> Process {
    start_as(d, PID, NONCE)
}

fn start_as(d: &Shared, pid: u32, nonce: u32) -> Process {
    Process {
        disk: d.clone(),
        pid,
        nonce,
        handle: 0,
        texts: KeyTexts {
            errors: Vec::new(),
            listed: Vec::new(),
            claims: Vec::new(),
        },
        hook: Box::new(|_, _| None),
    }
}

fn hooked<F>(d: &Shared, f: F) -> Process
where
    F: FnMut(&str, &KeyOp) -> Option<(IoKind, String)> + 'static,
{
    let mut p = start(d);
    p.hook = Box::new(f);
    p
}

impl Process {
    fn place(&self) -> KeyPlace {
        KeyPlace {
            path: format!("{DIR}/{KEY}"),
            dir: DIR.to_string(),
            stem: KEY.to_string(),
            pid: self.pid,
            nonce: self.nonce,
        }
    }
    fn name(&self, f: FileRef) -> String {
        match f {
            FileRef::Listed(id) => self.texts.listed[id as usize].name.clone(),
            f => file_name(KEY, self.pid, self.nonce, f).unwrap(),
        }
    }
    fn error(&mut self, kind: IoKind, file: &str, text: &str) -> IoError {
        self.texts.errors.push(ErrorText {
            file: format!("{DIR}/{file}"),
            text: text.to_string(),
        });
        IoError {
            kind,
            id: self.texts.errors.len() as u64 - 1,
        }
    }
    fn fail(&mut self, kind: IoKind, file: &str) -> Reply {
        let text = match kind {
            IoKind::NotFound => "entity not found",
            IoKind::AlreadyExists => "entity already exists",
            IoKind::Other => "permission denied",
        };
        Reply::Failed(self.error(kind, file, text))
    }
    fn entries(&mut self) -> Vec<DirEntry> {
        let d = self.disk.clone();
        let d = d.borrow();
        let mut out = Vec::new();
        for (name, i) in &d.names {
            self.texts.listed.push(ListedText {
                path: format!("{DIR}/{name}"),
                name: name.clone(),
            });
            out.push(DirEntry {
                id: self.texts.listed.len() as u64 - 1,
                name: Some(name.clone()),
                modified: Some(d.inodes[i].modified),
            });
        }
        out
    }
    fn perform(&mut self, stage: &str, op: KeyOp) -> Reply {
        if let Some((kind, text)) = (self.hook)(stage, &op) {
            let file = match op {
                KeyOp::CreateNew(f)
                | KeyOp::Tighten(f)
                | KeyOp::Stat(f)
                | KeyOp::WriteKey(f, _)
                | KeyOp::SyncFile(f)
                | KeyOp::HardLink(f, _)
                | KeyOp::Remove(f)
                | KeyOp::ReadKey(f) => self.name(f),
                _ => String::new(),
            };
            return Reply::Failed(self.error(kind, &file, &text));
        }
        let shared = self.disk.clone();
        let wall = shared.borrow().wall();
        let locked = shared.borrow().read_only;
        match op {
            KeyOp::Exists(f) => Reply::Present(shared.borrow().has(&self.name(f))),
            KeyOp::CreateNew(f) => {
                let name = self.name(f);
                if shared.borrow().has(&name) {
                    return self.fail(IoKind::AlreadyExists, &name);
                }
                if locked {
                    return self.fail(IoKind::Other, &name);
                }
                let mut d = shared.borrow_mut();
                let asked = match f {
                    FileRef::Final | FileRef::Temp(_) => 0o600,
                    _ => 0o666,
                };
                let mode = asked & !d.umask;
                d.write(&name, b"", mode);
                self.handle = d.names[&name];
                Reply::Done
            }
            KeyOp::Tighten(f) => {
                let name = self.name(f);
                if !shared.borrow().has(&name) {
                    return self.fail(IoKind::NotFound, &name);
                }
                shared.borrow_mut().chmod(&name, 0o600);
                Reply::Done
            }
            KeyOp::Stat(f) => {
                let name = self.name(f);
                if !shared.borrow().has(&name) {
                    return self.fail(IoKind::NotFound, &name);
                }
                let mode = shared.borrow().mode(&name);
                Reply::Mode(0o100000 | mode)
            }
            KeyOp::WriteKey(_, key) => {
                let mut d = shared.borrow_mut();
                let inode = d.inodes.get_mut(&self.handle).unwrap();
                inode.bytes = pem(key).into_bytes();
                inode.modified = wall;
                Reply::Done
            }
            KeyOp::SyncFile(_) => Reply::Done,
            KeyOp::HardLink(a, b) => {
                let (from, to) = (self.name(a), self.name(b));
                if shared.borrow().has(&to) {
                    return self.fail(IoKind::AlreadyExists, &to);
                }
                let mut d = shared.borrow_mut();
                let i = d.names[&from];
                d.names.insert(to, i);
                Reply::Done
            }
            KeyOp::Remove(f) => {
                let name = self.name(f);
                if locked {
                    return self.fail(IoKind::Other, &name);
                }
                if shared.borrow_mut().remove(&name) {
                    Reply::Done
                } else {
                    self.fail(IoKind::NotFound, &name)
                }
            }
            KeyOp::Rename(a, b) => {
                let (from, to) = (self.name(a), self.name(b));
                if locked {
                    return self.fail(IoKind::Other, &from);
                }
                if shared.borrow_mut().rename(&from, &to) {
                    Reply::Done
                } else {
                    self.fail(IoKind::NotFound, &from)
                }
            }
            KeyOp::SyncDir => Reply::Done,
            KeyOp::SyncFinal => {
                if shared.borrow().has(KEY) {
                    Reply::Done
                } else {
                    self.fail(IoKind::NotFound, KEY)
                }
            }
            KeyOp::ReadKey(f) => {
                let name = self.name(f);
                let bytes = shared.borrow().read(&name);
                match bytes {
                    None => self.fail(IoKind::NotFound, &name),
                    Some(bytes) => match parse(&bytes) {
                        Ok(key) => Reply::Key(key),
                        Err(text) => Reply::BadKey(self.error(IoKind::Other, &name, &text).id),
                    },
                }
            }
            KeyOp::GenerateKey => Reply::Key(shared.borrow_mut().new_key()),
            KeyOp::CreateParent => Reply::Done,
            KeyOp::StampClaim(n) => {
                let name = self.name(FileRef::Claim(n));
                shared.borrow_mut().age(&name, 0);
                Reply::Done
            }
            KeyOp::AppendClaim(n) => {
                let name = self.name(FileRef::Claim(n));
                let mut d = shared.borrow_mut();
                let mut bytes = d.read(&name).unwrap();
                bytes.push(b'.');
                d.write(&name, &bytes, 0o600);
                Reply::Done
            }
            KeyOp::StartHeartbeat(claims) => {
                let names = claims.iter().map(|n| self.name(FileRef::Claim(*n))).collect();
                let mut d = shared.borrow_mut();
                let clock = d.now;
                d.beats.push(Beat {
                    phase: claim_heartbeat(),
                    claims,
                    names,
                    clock,
                    pid: self.pid,
                });
                Reply::Done
            }
            KeyOp::ReleaseClaims(claims) => {
                let pid = self.pid;
                let names: Vec<String> =
                    claims.iter().map(|n| self.name(FileRef::Claim(*n))).collect();
                let mut d = shared.borrow_mut();
                d.beats.retain(|b| b.pid != pid);
                if !locked {
                    for name in names {
                        d.remove(&name);
                    }
                }
                Reply::Done
            }
            KeyOp::RemoveListed(ids) => {
                for id in ids {
                    let name = self.name(FileRef::Listed(id));
                    if !locked {
                        shared.borrow_mut().remove(&name);
                    }
                }
                Reply::Done
            }
            KeyOp::ListClaims => {
                let entries = self.entries();
                let ids = list_recovery_claims(KEY, &entries);
                self.texts.claims = ids.clone();
                Reply::Ids(ids)
            }
            KeyOp::ListClaimables => {
                let entries = self.entries();
                Reply::Ids(list_recovery_claimables(KEY, &entries, wall))
            }
            KeyOp::ListMarkers => {
                let entries = self.entries();
                Reply::Ids(list_publish_markers(KEY, &entries))
            }
            KeyOp::ListAdoptable => {
                let entries = self.entries();
                Reply::Ids(list_adoptable_quarantines(KEY, &entries, wall))
            }
            KeyOp::ListSiblings(f) => {
                let kept = self.name(f);
                let entries = self.entries();
                Reply::Ids(list_sibling_quarantines(KEY, &entries, wall, &kept))
            }
            KeyOp::ListStale => {
                let entries = self.entries();
                Reply::Ids(list_stale_files(KEY, &entries, wall))
            }
            KeyOp::Pause(n) => {
                shared.borrow_mut().advance(n);
                Reply::Done
            }
        }
    }
    fn now(&self) -> u64 {
        self.disk.borrow().now
    }

    fn publish(&mut self, key: u64) -> Result<bool, String> {
        let mut phase = publish_key_atomically();
        loop {
            let reply = self.perform(&format!("{phase:?}"), publish_op(phase, key));
            match publish_next(phase, &reply, self.now()) {
                PublishNext::Go(next) => phase = next,
                PublishNext::End(KeyPublish::Won) => return Ok(true),
                PublishNext::End(KeyPublish::Lost) => return Ok(false),
                PublishNext::End(KeyPublish::Failed(f)) => {
                    return Err(report_publish(&f, &self.place(), &self.texts).join(": "))
                }
            }
        }
    }

    fn load(&mut self) -> Result<u64, LoadError> {
        let mut phase = load_existing_key();
        loop {
            let reply = self.perform(&format!("{phase:?}"), load_op(phase));
            match load_next(phase, &reply) {
                LoadNext::Go(next) => phase = next,
                LoadNext::Loaded(key) => return Ok(key),
                LoadNext::Failed(e) => return Err(e),
            }
        }
    }

    fn load_message(&mut self) -> Result<u64, String> {
        let r = self.load();
        r.map_err(|e| report_load(&e, &self.place(), &self.texts).join(": "))
    }

    fn attempts(&mut self, mut b: BootLoad) -> BootLoadNext {
        loop {
            let reply = self.perform(&format!("{b:?}"), boot_load_op(b));
            match boot_load_next(b, &reply, self.now()) {
                BootLoadNext::Go(next) => b = next,
                end => return end,
            }
        }
    }

    fn load_racing(&mut self) -> Result<u64, LoadError> {
        let now = self.now();
        match self.attempts(load_racing_key(now)) {
            BootLoadNext::Loaded(key) => Ok(key),
            BootLoadNext::CrashSignature(e) | BootLoadNext::Failed(e) => Err(e),
            BootLoadNext::Go(_) => unreachable!(),
        }
    }

    fn recover(&mut self) -> (Recovery, Vec<u32>) {
        let mut r = CrashRecovery::recover_crashed_publish(LoadError::Content(0));
        loop {
            let op = r.op();
            let reply = self.perform(&format!("{:?}", r.stage), op);
            let now = self.now();
            if let Some(end) = r.step(reply, now) {
                return (end, r.claims);
            }
        }
    }

    fn sweep(&mut self) {
        let mut s = Sweep::sweep_stale_markers();
        while s.phase != SweepPhase::Finished {
            let op = s.op();
            let reply = self.perform(&format!("{:?}", s.phase), op);
            s.step(reply);
        }
    }

    fn boot_step(&mut self, b: &mut KeyBoot) -> Option<KeyEnd> {
        let op = b.op();
        let reply = self.perform(&format!("{:?} | {:?}", b.stage, b.recovery.stage), op);
        let now = self.now();
        b.step(reply, now)
    }

    fn boot_end(&mut self) -> KeyEnd {
        let mut b = KeyBoot::load_or_create_keypair();
        loop {
            if let Some(end) = self.boot_step(&mut b) {
                return end;
            }
        }
    }

    fn boot(&mut self) -> Result<u64, String> {
        match self.boot_end() {
            KeyEnd::Key(key) => Ok(key),
            KeyEnd::Failed(f) => Err(report_key(&f, &self.place(), &self.texts).join(": ")),
        }
    }
}

const LINK_ERROR: &str = "unsupported";

fn no_link(op: &KeyOp) -> Option<(IoKind, String)> {
    match op {
        KeyOp::HardLink(_, _) => other(LINK_ERROR),
        _ => None,
    }
}

fn seed_crash_state(d: &Shared, content: &[u8]) {
    d.borrow_mut().write(KEY, content, 0o600);
    d.borrow_mut()
        .write(".identity.pem.publishing.99999.0", b"", 0o600);
}

fn new_key(d: &Shared) -> u64 {
    d.borrow_mut().new_key()
}

fn names(d: &Shared, needle: &str) -> Vec<String> {
    d.borrow().names_containing(needle)
}

fn key_of(d: &Shared) -> u64 {
    start(d).load().expect("the key on disk loads")
}

#[test]
fn load_racing_key_waits_out_a_slow_winner() {
    let d = disk();
    let key = new_key(&d);
    let started = d.borrow().now;
    let shared = d.clone();
    let mut p = hooked(&d, move |_, op| {
        let now = shared.borrow().now;
        if matches!(op, KeyOp::Stat(_)) && now >= started + 250 * MILLISECOND {
            let free = !shared.borrow().has(KEY);
            if free {
                assert_eq!(start_as(&shared, 77, 1).publish(key), Ok(true));
            }
        }
        None
    });
    assert_eq!(p.load_racing(), Ok(key));
    let waited = d.borrow().now - started;
    assert!(waited >= 200 * MILLISECOND, "only waited {waited}");
}

#[test]
fn publish_wins_then_second_publish_loses_without_clobbering() {
    let d = disk();
    let (a, b) = (new_key(&d), new_key(&d));
    assert_ne!(a, b);
    assert_eq!(start(&d).publish(a), Ok(true), "first publish wins");
    assert_eq!(d.borrow().read(KEY).unwrap(), pem(a).into_bytes());
    assert_eq!(start(&d).publish(b), Ok(false), "second publish loses");
    assert_eq!(
        d.borrow().read(KEY).unwrap(),
        pem(a).into_bytes(),
        "the winner's key must NOT be clobbered by a losing publish"
    );
    assert!(names(&d, ".tmp.").is_empty(), "temp files must be cleaned up");
}

#[test]
fn publish_never_exposes_a_partial_final() {
    let d = disk();
    let key = new_key(&d);
    let shared = d.clone();
    let mut p = hooked(&d, move |_, _| {
        let seen = shared.borrow().read(KEY);
        if let Some(bytes) = seen {
            assert_eq!(parse(&bytes), Ok(key), "final observed in a partial state");
        }
        None
    });
    assert_eq!(p.publish(key), Ok(true));
    assert_eq!(key_of(&d), key);
}

#[test]
fn publish_recovers_from_a_stale_crashed_temp() {
    let d = disk();
    let key = new_key(&d);
    d.borrow_mut()
        .write(&format!(".identity.pem.tmp.{PID}.0"), b"partial-", 0o600);
    assert_eq!(start(&d).publish(key), Ok(true));
    assert_eq!(d.borrow().read(KEY).unwrap(), pem(key).into_bytes());
}

#[test]
fn publish_errors_when_all_temp_names_are_taken() {
    let d = disk();
    let key = new_key(&d);
    for attempt in 0..KEY_TEMP_ATTEMPTS {
        d.borrow_mut()
            .write(&format!(".identity.pem.tmp.{PID}.{attempt}"), b"taken", 0o600);
    }
    let msg = start(&d).publish(key).expect_err("every temp name is taken");
    assert!(
        msg.contains(&format!(".identity.pem.tmp.{PID}")) && msg.contains(DIR),
        "the error must name the temp prefix and directory: {msg}"
    );
    assert_eq!(
        msg,
        "all 64 temp key names .identity.pem.tmp.4242.* in /keys are taken; remove the stale \
         temp files and restart"
    );
    assert!(!d.borrow().has(KEY));
}

#[test]
fn created_key_is_mode_0600() {
    let d = disk();
    start(&d).boot().expect("create keypair");
    assert_eq!(d.borrow().mode(KEY), 0o600);
}

#[test]
fn existing_key_is_loaded_and_tightened() {
    let d = disk();
    let first = start(&d).boot().expect("create keypair");
    assert_eq!(key_of(&d), first, "the returned key is on disk");
    d.borrow_mut().chmod(KEY, 0o644);
    let second = start(&d).boot().expect("load keypair");
    assert_eq!(first, second, "reloading must return the same identity");
    assert_eq!(key_of(&d), first);
    assert_eq!(d.borrow().mode(KEY), 0o600);
}

#[test]
fn a_key_that_cannot_be_read_is_not_replaced() {
    let d = disk();
    let first = start(&d).boot().expect("create keypair");
    let mut p = hooked(&d, |_, op| match op {
        KeyOp::ReadKey(FileRef::Final) => other("simulated EIO"),
        _ => None,
    });
    let err = p.boot().expect_err("the read error must propagate");
    assert!(err.contains("simulated EIO"), "{err}");
    assert_eq!(key_of(&d), first, "the key is left as it is");
    assert_eq!(start(&d).boot(), Ok(first), "and is loaded once it can be read");
}

/// Runs several starts in turns, one operation each.
fn race(starts: Vec<Process>) -> Vec<Result<u64, String>> {
    let n = starts.len();
    race_in(starts, (0..n).cycle())
}

/// Runs several starts, one operation at a time, in the given order.
fn race_in<I>(starts: Vec<Process>, order: I) -> Vec<Result<u64, String>>
where
    I: Iterator<Item = usize>,
{
    let mut running: Vec<(Process, KeyBoot, Option<KeyEnd>)> = starts
        .into_iter()
        .map(|p| (p, KeyBoot::load_or_create_keypair(), None))
        .collect();
    for i in order {
        if running.iter().all(|r| r.2.is_some()) {
            break;
        }
        if running[i].2.is_none() {
            let (p, b, end) = &mut running[i];
            *end = p.boot_step(b);
        }
    }
    running
        .into_iter()
        .map(|(p, _, end)| match end.unwrap() {
            KeyEnd::Key(key) => Ok(key),
            KeyEnd::Failed(f) => Err(report_key(&f, &p.place(), &p.texts).join(": ")),
        })
        .collect()
}

#[test]
fn concurrent_starts_converge_on_one_identity() {
    let d = disk();
    let keys = race((0..8).map(|i| start_as(&d, 100 + i, i)).collect());
    assert!(keys[0].is_ok());
    assert!(
        keys.iter().all(|k| *k == keys[0]),
        "all concurrent starts must converge on one identity, got: {keys:?}"
    );
}

/// An endless order of `n` starts that looks random.
fn shuffled(n: usize, seed: u64) -> impl Iterator<Item = usize> {
    let mut x = seed;
    std::iter::repeat_with(move || {
        x = x.wrapping_mul(6364136223846793005).wrapping_add(1442695040888963407);
        (x >> 33) as usize % n
    })
}

fn assert_converged(d: &Shared, keys: Vec<Result<u64, String>>) {
    assert!(keys[0].is_ok(), "{keys:?}");
    assert!(keys.iter().all(|k| *k == keys[0]), "{keys:?}");
    assert_eq!(Ok(key_of(d)), keys[0], "the identity key is the one returned");
}

#[test]
fn starts_converge_in_any_order() {
    for seed in 0..60 {
        let d = disk();
        let starts = (0..5).map(|i| start_as(&d, 100 + i / 2, i)).collect();
        assert_converged(&d, race_in(starts, shuffled(5, seed)));
        assert!(names(&d, ".tmp.").is_empty());
    }
}

#[test]
fn starts_without_links_converge_in_any_order() {
    for seed in 0..60 {
        let d = disk();
        let starts = (0..3)
            .map(|i| {
                let mut p = start_as(&d, 100 + i, i);
                p.hook = Box::new(|_, op| no_link(op));
                p
            })
            .collect();
        assert_converged(&d, race_in(starts, shuffled(3, seed)));
        assert!(names(&d, ".quarantined.").is_empty(), "no start made a recovery");
    }
}

#[test]
fn recovering_starts_converge_in_any_order() {
    for seed in 0..60 {
        let d = disk();
        seed_crash_state(&d, b"");
        let starts = (0..4).map(|i| start_as(&d, 100 + i, i)).collect();
        assert_converged(&d, race_in(starts, shuffled(4, seed)));
        assert_eq!(names(&d, ".quarantined.").len(), 1, "one start moved the key away");
        assert!(names(&d, ".publishing.").is_empty());
        assert!(names(&d, ".recovering.").is_empty());
    }
}

#[test]
fn failed_write_removes_the_partial_key_file() {
    let d = disk();
    let key = new_key(&d);
    let mut p = hooked(&d, |_, op| match op {
        KeyOp::WriteKey(FileRef::Temp(_), _) => other("simulated ENOSPC"),
        _ => None,
    });
    let msg = p.publish(key).expect_err("the write error must propagate");
    assert_eq!(
        msg,
        "failed to write key to /keys/.identity.pem.tmp.4242.0: simulated ENOSPC"
    );
    assert!(
        d.borrow().names.is_empty(),
        "a failed first write must not leave a partial key file"
    );
}

#[test]
fn successful_write_keeps_the_key_file() {
    let d = disk();
    let key = new_key(&d);
    assert_eq!(start(&d).publish(key), Ok(true));
    assert!(d.borrow().has(KEY));
}

#[test]
fn loose_key_mode_is_rejected_not_used() {
    let d = disk();
    d.borrow_mut().write(KEY, pem(9).as_bytes(), 0o644);
    // A mount on which the mode cannot be changed.
    let shared = d.clone();
    let mut p = hooked(&d, move |stage, _| {
        if stage == "Verify" {
            shared.borrow_mut().chmod(KEY, 0o644);
        }
        None
    });
    let err = p.load_message().expect_err("a readable key must be rejected");
    assert!(err.contains("644"), "the failure must name the exposed mode: {err}");
    assert!(!key_mode_ok(0o100644));
    assert!(key_mode_ok(0o100600));
    d.borrow_mut().chmod(KEY, 0o600);
    assert_eq!(start(&d).load(), Ok(9), "a 0600 key must be accepted");
}

fn assert_link_failure_falls_back(text: &'static str) {
    let d = disk();
    let key = new_key(&d);
    let mut p = hooked(&d, move |_, op| match op {
        KeyOp::HardLink(_, _) => other(text),
        _ => None,
    });
    assert_eq!(p.publish(key), Ok(true), "fallback publish wins");
    assert_eq!(d.borrow().mode(KEY), 0o600);
    assert_eq!(key_of(&d), key);
}

#[test]
fn permission_denied_link_falls_back_to_direct_create() {
    assert_link_failure_falls_back("permission denied");
}

#[test]
fn unsupported_link_falls_back_to_direct_create() {
    assert_link_failure_falls_back(LINK_ERROR);
}

#[test]
fn link_failure_with_existing_final_loses_without_clobbering() {
    let d = disk();
    let (winner, loser) = (new_key(&d), new_key(&d));
    assert_eq!(start(&d).publish(winner), Ok(true));
    let mut p = hooked(&d, |_, op| no_link(op));
    assert_eq!(p.publish(loser), Ok(false), "fallback loses to the existing key");
    assert_eq!(d.borrow().read(KEY).unwrap(), pem(winner).into_bytes());
    assert_eq!(start(&d).load_racing(), Ok(winner));
}

#[test]
fn concurrent_fallback_publishers_converge_on_one_winner() {
    let d = disk();
    let keys = [new_key(&d), new_key(&d)];
    let mut ps = [start_as(&d, 1, 1), start_as(&d, 2, 2)];
    let mut phases = [publish_key_atomically(), publish_key_atomically()];
    let mut ends: [Option<KeyPublish>; 2] = [None, None];
    while ends.iter().any(|e| e.is_none()) {
        for i in 0..2 {
            if ends[i].is_some() {
                continue;
            }
            ps[i].hook = Box::new(|_, op| no_link(op));
            let reply = ps[i].perform("", publish_op(phases[i], keys[i]));
            let now = ps[i].now();
            match publish_next(phases[i], &reply, now) {
                PublishNext::Go(next) => phases[i] = next,
                PublishNext::End(end) => ends[i] = Some(end),
            }
        }
    }
    let won = ends.iter().filter(|e| **e == Some(KeyPublish::Won)).count();
    assert_eq!(won, 1, "exactly one fallback create_new must win, got {ends:?}");
    let winner = if ends[0] == Some(KeyPublish::Won) { keys[0] } else { keys[1] };
    assert_eq!(start(&d).load_racing(), Ok(winner));
}

fn fallback_fault(d: &Shared, at: &'static str, text: &'static str) -> Process {
    hooked(d, move |stage, op| match op {
        KeyOp::HardLink(_, _) => other(LINK_ERROR),
        KeyOp::CreateNew(FileRef::Final) if at == "create" => other(text),
        KeyOp::WriteKey(FileRef::Final, _) if at == "write" => other(text),
        KeyOp::SyncFile(FileRef::Final) if at == "fsync" => other(text),
        KeyOp::Stat(FileRef::Final) if at == "verify" && stage.contains("VerifyFinal") => {
            other(text)
        }
        KeyOp::SyncDir if at == "marker_fsync" && stage.contains("SyncMarkerDir") => other(text),
        _ => None,
    })
}

#[test]
fn failed_fallback_write_leaves_the_partial_final_for_recovery() {
    let d = disk();
    let key = new_key(&d);
    let msg = fallback_fault(&d, "write", "injected write failure")
        .publish(key)
        .expect_err("a failed fallback write must error the start");
    assert!(msg.contains("injected write failure"), "{msg}");
    assert!(msg.contains(LINK_ERROR), "the error must chain the link failure: {msg}");
    assert!(d.borrow().read(KEY).unwrap().is_empty(), "the partial final stays, empty");
}

#[test]
fn failed_fallback_create_surfaces_the_open_error_and_chains_link_err() {
    let d = disk();
    let key = new_key(&d);
    let msg = fallback_fault(&d, "create", "injected fallback create failure")
        .publish(key)
        .expect_err("a failed fallback create must error the start");
    assert!(msg.contains("injected fallback create failure"), "{msg}");
    assert!(msg.contains(LINK_ERROR), "the error must chain the link failure: {msg}");
    assert_eq!(
        msg,
        "create identity key /keys/identity.pem in hard_link fallback (link failed: \
         unsupported): injected fallback create failure"
    );
    assert!(!d.borrow().has(KEY));
}

#[test]
fn failed_fallback_fsync_leaves_the_final_for_recovery() {
    let d = disk();
    let key = new_key(&d);
    let msg = fallback_fault(&d, "fsync", "injected fsync failure")
        .publish(key)
        .expect_err("a failed fallback fsync must error the start");
    assert!(msg.contains("injected fsync failure"), "{msg}");
    assert_eq!(d.borrow().read(KEY).unwrap(), pem(key).into_bytes());
}

#[test]
fn fallback_crash_residue_fails_loudly_not_silently() {
    let d = disk();
    d.borrow_mut().write(KEY, b"", 0o600);
    let err = start(&d).load_message().expect_err("an empty final must fail");
    assert!(err.contains("invalid PEM"), "{err}");
    d.borrow_mut().write(KEY, b"-----BEGIN nonsense truncated", 0o600);
    let err = start(&d).load_message().expect_err("a truncated final must fail");
    assert!(err.contains("invalid PEM"), "{err}");
    let shared = d.clone();
    let mut p = hooked(&d, move |stage, _| {
        if stage == "Verify" {
            shared.borrow_mut().chmod(KEY, 0o400);
        }
        None
    });
    let err = p.load_message().expect_err("a non-0600 final must be rejected");
    assert!(err.contains("400"), "{err}");
    assert_eq!(
        err,
        "identity key /keys/identity.pem has mode 400, expected 0600 \u{2014} refusing to use a \
         world/group-readable private key"
    );
}

fn run_umask_case(mask: u32, site: &str) {
    let d = disk();
    d.borrow_mut().umask = mask;
    let key = new_key(&d);
    let mut p = start(&d);
    if site == "fallback" {
        p.hook = Box::new(|_, op| no_link(op));
    }
    assert_eq!(p.publish(key), Ok(true));
    assert_eq!(d.borrow().mode(KEY), 0o600, "under umask {mask:o}");
    assert_eq!(key_of(&d), key);
}

#[test]
fn umask_0277_hardlink_publish_is_repaired_to_0600() {
    run_umask_case(0o277, "hardlink");
}

#[test]
fn umask_0277_fallback_publish_is_repaired_to_0600() {
    run_umask_case(0o277, "fallback");
}

#[test]
fn permissive_umask_0077_still_publishes_0600() {
    run_umask_case(0o077, "hardlink");
}

#[test]
fn permissive_umask_0000_still_publishes_0600() {
    run_umask_case(0o000, "hardlink");
}

#[test]
fn forced_temp_mode_verify_failure_fails_closed_before_any_pem_write() {
    let d = disk();
    let key = new_key(&d);
    let mut p = hooked(&d, |_, op| match op {
        KeyOp::Stat(FileRef::Temp(_)) => other("injected mode-ignoring mount"),
        KeyOp::WriteKey(_, _) => panic!("no key byte may be written"),
        _ => None,
    });
    let msg = p.publish(key).expect_err("an unverifiable temp mode must fail");
    assert!(
        msg.contains("injected mode-ignoring mount") && msg.contains(".identity.pem.tmp."),
        "{msg}"
    );
    assert!(d.borrow().names.is_empty());
}

#[test]
fn forced_fallback_mode_verify_failure_removes_the_empty_final() {
    let d = disk();
    let key = new_key(&d);
    let msg = fallback_fault(&d, "verify", "injected mode-ignoring mount")
        .publish(key)
        .expect_err("an unverifiable final mode must fail");
    assert!(
        msg.contains("injected mode-ignoring mount") && msg.contains("identity.pem"),
        "{msg}"
    );
    assert!(msg.contains(LINK_ERROR), "{msg}");
    assert!(d.borrow().names.is_empty(), "nothing may remain on disk");
    let mut retry = hooked(&d, |_, op| no_link(op));
    assert_eq!(retry.publish(key), Ok(true), "retry wins cleanly");
    assert_eq!(key_of(&d), key);
}

#[test]
fn fallback_publish_succeeds_and_leaves_no_marker() {
    let d = disk();
    let key = new_key(&d);
    assert_eq!(hooked(&d, |_, op| no_link(op)).publish(key), Ok(true));
    assert_eq!(key_of(&d), key);
    assert!(names(&d, ".publishing.").is_empty());
}

#[test]
fn lost_fallback_race_leaves_no_marker() {
    let d = disk();
    let (winner, loser) = (new_key(&d), new_key(&d));
    assert_eq!(start(&d).publish(winner), Ok(true));
    assert_eq!(hooked(&d, |_, op| no_link(op)).publish(loser), Ok(false));
    assert_eq!(start(&d).load_racing(), Ok(winner));
    assert!(names(&d, ".publishing.").is_empty());
}

fn assert_fallback_error_leaves_no_marker_or_final(at: &'static str, injected: &'static str) {
    let d = disk();
    let key = new_key(&d);
    let msg = fallback_fault(&d, at, injected)
        .publish(key)
        .expect_err("the injected fallback fault must error the publish");
    assert!(msg.contains(injected), "{msg}");
    assert!(!d.borrow().has(KEY));
    assert!(names(&d, ".publishing.").is_empty());
}

#[test]
fn failed_fallback_create_leaves_no_marker() {
    assert_fallback_error_leaves_no_marker_or_final("create", "injected fallback create failure");
}

#[test]
fn failed_fallback_mode_verify_leaves_no_marker() {
    assert_fallback_error_leaves_no_marker_or_final("verify", "injected mode-ignoring mount");
}

fn assert_post_write_failure_leaves_marker_and_final(at: &'static str, injected: &'static str) {
    let d = disk();
    let key = new_key(&d);
    let msg = fallback_fault(&d, at, injected)
        .publish(key)
        .expect_err("the injected fallback fault must error the publish");
    assert!(msg.contains(injected), "{msg}");
    assert!(
        msg.contains("left in place for boot-time crash recovery"),
        "the error must name the recovery handoff: {msg}"
    );
    assert!(d.borrow().has(KEY));
    assert_eq!(names(&d, ".publishing.").len(), 1);
}

#[test]
fn failed_fallback_write_leaves_the_marker_and_final() {
    assert_post_write_failure_leaves_marker_and_final("write", "injected write failure");
}

#[test]
fn failed_fallback_fsync_leaves_the_marker_and_final() {
    assert_post_write_failure_leaves_marker_and_final("fsync", "injected fsync failure");
}

fn assert_regenerated(d: &Shared, key: u64, quarantines: usize) {
    assert_eq!(key_of(d), key, "the returned identity must match the on-disk key");
    assert_eq!(names(d, ".quarantined.").len(), quarantines);
    assert!(names(d, ".publishing.").is_empty(), "recovery must consume the markers");
    assert!(names(d, ".recovering.").is_empty(), "the claims must be released");
}

#[test]
fn post_write_failure_state_is_recoverable() {
    let d = disk();
    let key = new_key(&d);
    assert!(fallback_fault(&d, "write", "injected write failure")
        .publish(key)
        .is_err());
    assert!(d.borrow().has(KEY) && names(&d, ".publishing.").len() == 1);
    let key = start(&d).boot().expect("the left-behind crash state must recover");
    assert_regenerated(&d, key, 1);
}

#[test]
fn marker_name_exhaustion_errors_loudly_and_never_creates_the_final() {
    let d = disk();
    let key = new_key(&d);
    for attempt in 0..KEY_TEMP_ATTEMPTS {
        d.borrow_mut()
            .write(&format!("{}{PID}.{attempt}", publishing_prefix(KEY)), b"", 0o600);
    }
    let msg = hooked(&d, |_, op| no_link(op))
        .publish(key)
        .expect_err("every marker name is taken");
    assert!(
        msg.contains(&format!(".identity.pem.publishing.{PID}")) && msg.contains(DIR),
        "{msg}"
    );
    assert!(!d.borrow().has(KEY));
}

#[test]
fn marker_fsync_failure_does_not_fail_the_publish() {
    let d = disk();
    let key = new_key(&d);
    let r = fallback_fault(&d, "marker_fsync", "injected marker dir fsync failure").publish(key);
    assert_eq!(r, Ok(true), "publish still wins");
    assert_eq!(key_of(&d), key);
    assert!(names(&d, ".publishing.").is_empty());
}

#[test]
fn primary_hardlink_publish_never_creates_a_marker() {
    let d = disk();
    let key = new_key(&d);
    let mut p = hooked(&d, |_, op| match op {
        KeyOp::CreateNew(FileRef::Marker(_)) => other("marker created on the primary path"),
        _ => None,
    });
    assert_eq!(p.publish(key), Ok(true));
    assert_eq!(key_of(&d), key);
    assert!(names(&d, ".publishing.").is_empty());
}

#[test]
fn recovery_regenerates_after_crash_leaves_empty_final() {
    let d = disk();
    seed_crash_state(&d, b"");
    let started = d.borrow().now;
    let key = start(&d).boot().expect("a crash-marked empty final must recover");
    let elapsed = d.borrow().now - started;
    assert!(elapsed < 2 * SECOND, "recovery must not ride the race deadline: {elapsed}");
    assert!(elapsed >= CRASH_SIGNATURE_MIN_PERSIST);
    assert_eq!(d.borrow().mode(KEY), 0o600);
    assert_regenerated(&d, key, 1);
    let quarantined = names(&d, ".quarantined.");
    assert!(d.borrow().read(&quarantined[0]).unwrap().is_empty());
}

#[test]
fn recovery_quarantines_truncated_final_preserving_bytes() {
    let d = disk();
    let whole = pem(new_key(&d)).into_bytes();
    let truncated = whole[..whole.len() / 2].to_vec();
    seed_crash_state(&d, &truncated);
    let key = start(&d).boot().expect("a crash-marked truncated final must recover");
    assert_regenerated(&d, key, 1);
    let quarantined = names(&d, ".quarantined.");
    assert_eq!(d.borrow().read(&quarantined[0]).unwrap(), truncated);
}

fn take_all_quarantine_names(d: &Shared) {
    for n in 0..KEY_TEMP_ATTEMPTS {
        d.borrow_mut()
            .write(&format!(".identity.pem.quarantined.{PID}.{n}"), b"sentinel", 0o600);
    }
}

#[test]
fn quarantine_exhaustion_falls_back_to_removal() {
    let d = disk();
    seed_crash_state(&d, b"");
    take_all_quarantine_names(&d);
    let key = start(&d).boot().expect("an exhausted quarantine probe must fall back");
    assert_regenerated(&d, key, KEY_TEMP_ATTEMPTS as usize);
    for name in names(&d, ".quarantined.") {
        assert_eq!(d.borrow().read(&name).unwrap(), b"sentinel");
    }
}

#[test]
fn quarantine_and_removal_both_blocked_errors_loudly() {
    let d = disk();
    seed_crash_state(&d, b"");
    take_all_quarantine_names(&d);
    let shared = d.clone();
    let mut p = hooked(&d, move |stage, _| {
        if stage.ends_with("Reparse(Look)") {
            shared.borrow_mut().read_only = true;
        }
        None
    });
    let msg = p.boot().expect_err("a blocked quarantine AND removal must fail loudly");
    d.borrow_mut().read_only = false;
    assert!(
        msg.contains("could not quarantine or remove")
            && msg.contains("/keys/identity.pem")
            && msg.contains("invalid PEM key"),
        "{msg}"
    );
    assert!(d.borrow().has(KEY), "the corrupt final must survive");
    for name in names(&d, ".recovering.") {
        d.borrow_mut().age(&name, HOUR);
    }
    let key = start(&d).boot().expect("the leftover claim must be claimable");
    assert_regenerated(&d, key, KEY_TEMP_ATTEMPTS as usize);
}

#[test]
fn bad_final_without_marker_still_fails_loudly() {
    let d = disk();
    let garbage: &[u8] = b"-----BEGIN nonsense truncated";
    d.borrow_mut().write(KEY, garbage, 0o600);
    let err = start(&d).boot().expect_err("a marker-less corrupt final must fail");
    assert!(err.contains("invalid PEM key"), "{err}");
    assert_eq!(d.borrow().read(KEY).unwrap(), garbage);
    assert!(names(&d, ".quarantined.").is_empty());
}

#[test]
fn valid_final_with_stale_marker_loads_unchanged() {
    let d = disk();
    let existing = new_key(&d);
    seed_crash_state(&d, pem(existing).as_bytes());
    assert_eq!(start(&d).boot(), Ok(existing));
    assert_eq!(d.borrow().read(KEY).unwrap(), pem(existing).into_bytes());
    assert!(names(&d, ".quarantined.").is_empty());
}

#[test]
fn transient_error_with_marker_never_recovers() {
    let d = disk();
    let existing = new_key(&d);
    seed_crash_state(&d, pem(existing).as_bytes());
    let started = d.borrow().now;
    let mut p = hooked(&d, |stage, op| match op {
        KeyOp::Stat(_) if stage.starts_with("Load") => other("injected transient load failure"),
        _ => None,
    });
    let err = p.boot().expect_err("a transient load failure must stay loud");
    assert!(err.contains("injected transient load failure"), "{err}");
    assert!(d.borrow().now - started >= KEY_RACE_DEADLINE);
    assert_eq!(d.borrow().read(KEY).unwrap(), pem(existing).into_bytes());
    assert_eq!(
        names(&d, ".publishing."),
        vec![".identity.pem.publishing.99999.0".to_string()]
    );
    assert!(names(&d, ".quarantined.").is_empty());
}

#[test]
fn recovery_runs_at_most_once_per_start() {
    let d = disk();
    seed_crash_state(&d, b"");
    let shared = d.clone();
    let mut replanted = false;
    let mut p = hooked(&d, move |_, op| {
        if matches!(op, KeyOp::ListAdoptable) && !replanted {
            replanted = true;
            let mut d = shared.borrow_mut();
            d.write(".identity.pem.publishing.88888.0", b"", 0o600);
            d.write(KEY, b"", 0o600);
        }
        None
    });
    let err = p.boot().expect_err("a second crash state must error, not recover again");
    assert!(err.contains("invalid PEM key"), "{err}");
    assert_eq!(names(&d, ".quarantined.").len(), 1);
}

#[test]
fn claim_race_admits_exactly_one_recoverer() {
    let d = disk();
    seed_crash_state(&d, b"");
    let keys = race(vec![start_as(&d, 1, 1), start_as(&d, 2, 2)]);
    assert!(keys[0].is_ok(), "{keys:?}");
    assert_eq!(keys[0], keys[1], "both recovering starts must converge");
    assert_regenerated(&d, *keys[0].as_ref().unwrap(), 1);
}

#[test]
fn lost_race_load_failure_takes_recovery_path() {
    let d = disk();
    let shared = d.clone();
    let mut planted = false;
    let mut p = hooked(&d, move |_, op| {
        if matches!(op, KeyOp::HardLink(_, _)) && !planted {
            planted = true;
            let mut d = shared.borrow_mut();
            d.write(".identity.pem.publishing.77777.0", b"", 0o600);
            d.write(KEY, b"", 0o600);
        }
        no_link(op)
    });
    let key = p.boot().expect("a lost race onto a crash-state final must recover");
    assert_regenerated(&d, key, 1);
}

/// A fallback publisher whose round is disturbed once, right before it commits.
fn disturbed_at_commit<F: FnMut() + 'static>(d: &Shared, mut disturb: F) -> Process {
    let mut fired = false;
    hooked(d, move |stage, op| {
        if stage.contains("Commit {") && !fired {
            fired = true;
            disturb();
        }
        no_link(op)
    })
}

#[test]
fn stalled_winner_demotes_when_recovery_claims_its_round() {
    let d = disk();
    let key_b = 1000;
    let shared = d.clone();
    let mut p = disturbed_at_commit(&d, move || {
        let markers = names(&shared, ".publishing.");
        assert_eq!(markers.len(), 1, "A's window must be bracketed");
        let claim = ".identity.pem.recovering.55555";
        assert!(shared.borrow_mut().rename(&markers[0], claim));
        assert!(shared
            .borrow_mut()
            .rename(KEY, ".identity.pem.quarantined.55555.0"));
        assert_eq!(start_as(&shared, 55555, 1).publish(key_b), Ok(true));
        assert!(shared.borrow_mut().remove(claim));
    });
    assert_eq!(p.boot(), Ok(key_b), "the demoted winner must converge on key B");
    assert_regenerated(&d, key_b, 1);
}

#[test]
fn winner_commits_first_without_interference() {
    let d = disk();
    let key = new_key(&d);
    let fired = Rc::new(RefCell::new(false));
    let seen = fired.clone();
    let mut p = disturbed_at_commit(&d, move || *seen.borrow_mut() = true);
    assert_eq!(p.publish(key), Ok(true), "the uncontended winner commits");
    assert!(*fired.borrow(), "the commit must be reached");
    assert_eq!(key_of(&d), key);
    assert!(names(&d, ".publishing.").is_empty());
}

#[test]
fn late_recovery_aborts_after_winner_commit() {
    let d = disk();
    let key = new_key(&d);
    assert_eq!(hooked(&d, |_, op| no_link(op)).publish(key), Ok(true));
    let (end, claims) = start(&d).recover();
    assert_eq!(end, Recovery::Loaded(key), "late recovery resolves to the winner");
    assert!(claims.is_empty());
    assert!(names(&d, ".quarantined.").is_empty());
}

#[test]
fn demoted_winner_resolves_fast_when_claims_are_gone() {
    let d = disk();
    let shared = d.clone();
    let started = d.borrow().now;
    let mut p = disturbed_at_commit(&d, move || {
        let markers = names(&shared, ".publishing.");
        assert_eq!(markers.len(), 1);
        assert!(shared.borrow_mut().remove(&markers[0]));
    });
    let key = p.boot().expect("a demoted winner with no claims left must resolve");
    assert!(d.borrow().now - started < 4 * SECOND);
    assert_eq!(key_of(&d), key);
}

#[test]
fn frozen_claim_fails_the_waiter_closed() {
    let d = disk();
    let shared = d.clone();
    let at_demotion = Rc::new(RefCell::new(Vec::new()));
    let kept = at_demotion.clone();
    let started = d.borrow().now;
    let mut p = disturbed_at_commit(&d, move || {
        let markers = names(&shared, ".publishing.");
        assert_eq!(markers.len(), 1);
        let mut d = shared.borrow_mut();
        assert!(d.remove(&markers[0]));
        d.write(".identity.pem.recovering.44444", b"", 0o600);
        d.age(".identity.pem.recovering.44444", HOUR);
        *kept.borrow_mut() = d.read(KEY).unwrap();
    });
    let msg = p.boot().expect_err("a claim present at the wait bound must fail closed");
    assert!(msg.contains(".identity.pem.recovering.44444"), "{msg}");
    assert!(msg.contains("settle"), "{msg}");
    assert!(
        msg.contains(
            "recovery round did not settle within the 11s wait bound: recovery claim(s) \
             [\".identity.pem.recovering.44444\"] still present beside /keys/identity.pem"
        ),
        "{msg}"
    );
    assert!(d.borrow().now - started >= CLAIM_WAIT_BOUND);
    assert_eq!(d.borrow().read(KEY).unwrap(), *at_demotion.borrow());
}

#[test]
fn waiter_holds_for_live_young_claims() {
    let d = disk();
    let shared = d.clone();
    let started = d.borrow().now;
    let claim = ".identity.pem.recovering.55555";
    let mut planted: Option<u64> = None;
    let mut p = hooked(&d, move |stage, op| {
        if stage.contains("Commit {") && planted.is_none() {
            let markers = names(&shared, ".publishing.");
            assert_eq!(markers.len(), 1);
            let mut d = shared.borrow_mut();
            assert!(d.remove(&markers[0]));
            d.write(claim, b"", 0o600);
            planted = Some(d.now);
        }
        if let Some(since) = planted {
            let now = shared.borrow().now;
            if now >= since + 7 * SECOND {
                shared.borrow_mut().remove(claim);
            }
        }
        no_link(op)
    });
    let key = p.boot().expect("a demoted winner behind a live claim must resolve");
    let waited = d.borrow().now - started;
    assert!(waited > KEY_RACE_DEADLINE + 1500 * MILLISECOND, "waited {waited}");
    assert!(waited < 10 * SECOND, "waited {waited}");
    assert_eq!(key_of(&d), key);
}

#[test]
fn unsettled_round_fails_closed() {
    let d = disk();
    let shared = d.clone();
    let claim = ".identity.pem.recovering.55555";
    let at_demotion = Rc::new(RefCell::new(Vec::new()));
    let kept = at_demotion.clone();
    let mut planted = false;
    let mut p = hooked(&d, move |stage, op| {
        if stage.contains("Commit {") && !planted {
            planted = true;
            let markers = names(&shared, ".publishing.");
            assert_eq!(markers.len(), 1);
            let mut d = shared.borrow_mut();
            assert!(d.remove(&markers[0]));
            d.write(claim, b"", 0o600);
            *kept.borrow_mut() = d.read(KEY).unwrap();
        }
        if planted {
            // The claim's owner is alive: its time stays fresh.
            shared.borrow_mut().age(claim, 0);
        }
        no_link(op)
    });
    let msg = p.boot().expect_err("an unsettled round must fail closed");
    assert!(msg.contains(claim), "{msg}");
    assert!(msg.contains("settle"), "{msg}");
    assert_eq!(d.borrow().read(KEY).unwrap(), *at_demotion.borrow());
}

#[test]
fn healthy_load_sweeps_stale_markers_and_claims() {
    let d = disk();
    let existing = new_key(&d);
    seed_crash_state(&d, pem(existing).as_bytes());
    {
        let mut d = d.borrow_mut();
        d.write(".identity.pem.publishing.88888.1", b"", 0o600);
        d.write(".identity.pem.recovering.77777", b"", 0o600);
        d.age(".identity.pem.recovering.77777", HOUR);
    }
    assert_eq!(start(&d).boot(), Ok(existing));
    assert!(names(&d, ".publishing.").is_empty());
    assert!(names(&d, ".recovering.").is_empty());
}

#[test]
fn healthy_load_spares_young_claims() {
    let d = disk();
    let existing = new_key(&d);
    seed_crash_state(&d, pem(existing).as_bytes());
    let (young, old) = (
        ".identity.pem.recovering.11111",
        ".identity.pem.recovering.22222",
    );
    d.borrow_mut().write(young, b"", 0o600);
    d.borrow_mut().write(old, b"", 0o600);
    d.borrow_mut().age(old, HOUR);
    assert_eq!(start(&d).boot(), Ok(existing));
    assert!(d.borrow().has(young), "a young claim must survive the sweep");
    assert!(!d.borrow().has(old), "an orphaned claim must be swept");
    assert!(names(&d, ".publishing.").is_empty());
}

#[test]
fn second_sweep_clears_aged_orphan_claims() {
    let d = disk();
    let claim = ".identity.pem.recovering.33333";
    d.borrow_mut().write(KEY, pem(9).as_bytes(), 0o600);
    d.borrow_mut().write(claim, b"", 0o600);
    start(&d).sweep();
    assert!(d.borrow().has(claim), "the first sweep must spare the young claim");
    d.borrow_mut().age(claim, HOUR);
    start(&d).sweep();
    assert!(!d.borrow().has(claim), "a second sweep must clear the aged claim");
}

#[test]
fn superseded_residue_is_retention_swept() {
    let d = disk();
    let (aged, young) = (
        ".identity.pem.superseded.99999.0",
        ".identity.pem.superseded.99999.1",
    );
    {
        let mut d = d.borrow_mut();
        d.write(KEY, pem(9).as_bytes(), 0o600);
        d.write(aged, b"old forensics", 0o600);
        d.age(aged, 2 * DAY);
        d.write(young, b"fresh forensics", 0o600);
    }
    assert_eq!(start(&d).boot(), Ok(9));
    assert!(!d.borrow().has(aged));
    assert!(d.borrow().has(young));
}

#[test]
fn old_quarantine_forensics_are_retention_swept() {
    let d = disk();
    let (aged, young, recent) = (
        ".identity.pem.quarantined.99999.0",
        ".identity.pem.quarantined.99999.1",
        ".identity.pem.quarantined.99999.2",
    );
    {
        let mut d = d.borrow_mut();
        d.write(KEY, pem(9).as_bytes(), 0o600);
        d.write(aged, b"-----BEGIN nonsense", 0o600);
        d.age(aged, 2 * DAY);
        d.write(young, b"-----BEGIN nonsense", 0o600);
        d.write(recent, pem(10).as_bytes(), 0o600);
        d.age(recent, HOUR);
    }
    assert_eq!(start(&d).boot(), Ok(9));
    assert!(!d.borrow().has(aged));
    assert!(d.borrow().has(young));
    assert!(d.borrow().has(recent));
}

#[test]
fn delayed_resweep_clears_aged_orphan_claims() {
    let d = disk();
    let claim = ".identity.pem.recovering.66666";
    d.borrow_mut().write(KEY, pem(9).as_bytes(), 0o600);
    d.borrow_mut().write(claim, b"", 0o600);
    assert_eq!(start(&d).boot(), Ok(9));
    assert!(d.borrow().has(claim), "the boot's own sweep spares the young claim");
    d.borrow_mut().advance(RESWEEP_DELAY);
    start(&d).sweep();
    assert!(!d.borrow().has(claim), "by then the claim has aged");
    assert_eq!(start(&d).load(), Ok(9));
}

#[test]
fn claim_freshness_is_stamped_at_claim_time() {
    let d = disk();
    seed_crash_state(&d, b"");
    d.borrow_mut().age(".identity.pem.publishing.99999.0", HOUR);
    let (end, claims) = start(&d).recover();
    assert_eq!(end, Recovery::Claimed);
    assert!(!claims.is_empty());
    for n in claims {
        let name = file_name(KEY, PID, NONCE, FileRef::Claim(n)).unwrap();
        assert!(d.borrow().age_of(&name) < CLAIM_SWEEP_MIN_AGE as i128);
    }
}

#[test]
fn stamp_fallback_bumps_mtime_by_write() {
    let d = disk();
    seed_crash_state(&d, b"");
    d.borrow_mut().age(".identity.pem.publishing.99999.0", HOUR);
    let mut p = hooked(&d, |_, op| match op {
        KeyOp::StampClaim(_) => other(LINK_ERROR),
        _ => None,
    });
    let (end, claims) = p.recover();
    assert_eq!(end, Recovery::Claimed);
    let name = file_name(KEY, PID, NONCE, FileRef::Claim(claims[0])).unwrap();
    assert_eq!(d.borrow().read(&name).unwrap(), b".", "the fallback writes a byte");
    assert!(d.borrow().age_of(&name) < CLAIM_SWEEP_MIN_AGE as i128);
}

#[test]
fn heartbeat_keeps_live_claims_young() {
    let d = disk();
    seed_crash_state(&d, b"");
    let shared = d.clone();
    let started = d.borrow().now;
    let mut p = hooked(&d, move |stage, _| {
        if stage.ends_with("FindFree { n: 0 }") {
            let end = shared.borrow().now + CLAIM_SWEEP_MIN_AGE + 2 * SECOND;
            while shared.borrow().now < end {
                shared.borrow_mut().advance(900 * MILLISECOND);
                let claims = names(&shared, ".recovering.");
                assert!(!claims.is_empty(), "the parked round's claim must persist");
                for name in claims {
                    let age = shared.borrow().age_of(&name);
                    assert!(age < CLAIM_SWEEP_MIN_AGE as i128, "a live claim must stay young");
                }
            }
        }
        None
    });
    let key = p.boot().expect("the parked recovery must still resolve a key");
    assert!(names(&d, ".recovering.").is_empty());
    assert!(d.borrow().now - started < CLAIM_SWEEP_MIN_AGE + 8 * SECOND);
    assert_eq!(key_of(&d), key);
    assert!(CLAIM_BEAT_GRANULE < CLAIM_SWEEP_MIN_AGE);
}

#[test]
fn same_pid_recoverers_get_unique_claim_names() {
    let d = disk();
    seed_crash_state(&d, b"");
    let (end, claims) = start(&d).recover();
    assert_eq!(end, Recovery::Claimed);
    assert!(!claims.is_empty());
    let prefix = format!(".identity.pem.recovering.{PID}.");
    let on_disk = names(&d, ".recovering.");
    assert_eq!(on_disk.len(), claims.len());
    for name in on_disk {
        let rest = name.strip_prefix(&prefix).expect("the claim has the pid's prefix");
        let fields: Vec<&str> = rest.split('.').collect();
        assert_eq!(fields.len(), 2);
        assert_eq!(fields[0], format!("{NONCE:08x}"));
        assert!(fields[1].parse::<u32>().is_ok());
    }
    let (a, b) = (claim_nonce(1, 0x7f00_0000_1000), claim_nonce(1, 0x7f00_0000_2000));
    assert_ne!(
        file_name(KEY, PID, a, FileRef::Claim(0)),
        file_name(KEY, PID, b, FileRef::Claim(0))
    );
}

#[test]
fn vanished_final_at_reparse_still_regenerates() {
    let d = disk();
    seed_crash_state(&d, b"");
    let shared = d.clone();
    let mut p = hooked(&d, move |stage, _| {
        if stage.ends_with("Reparse(Look)") {
            assert!(shared.borrow_mut().remove(KEY));
        }
        None
    });
    let key = p.boot().expect("a final vanished at the re-parse must regenerate");
    assert_regenerated(&d, key, 0);
}

#[test]
fn generate_path_sweeps_stale_markers() {
    let d = disk();
    d.borrow_mut()
        .write(".identity.pem.publishing.66666.0", b"", 0o600);
    let key = start(&d).boot().expect("a stale marker must not block generation");
    assert_eq!(key_of(&d), key);
    assert!(names(&d, ".publishing.").is_empty());
}

#[test]
fn sweep_durability_gate_leaves_markers_on_sync_failure() {
    let d = disk();
    let existing = new_key(&d);
    seed_crash_state(&d, pem(existing).as_bytes());
    let mut p = hooked(&d, |_, op| match op {
        KeyOp::SyncFinal => other("injected sweep sync failure"),
        _ => None,
    });
    assert_eq!(p.boot(), Ok(existing));
    assert_eq!(
        names(&d, ".publishing."),
        vec![".identity.pem.publishing.99999.0".to_string()]
    );
}

#[test]
fn sweep_failure_tolerated() {
    let d = disk();
    let existing = new_key(&d);
    seed_crash_state(&d, pem(existing).as_bytes());
    d.borrow_mut().read_only = true;
    assert_eq!(start(&d).boot(), Ok(existing));
    assert_eq!(
        names(&d, ".publishing."),
        vec![".identity.pem.publishing.99999.0".to_string()]
    );
}

#[test]
fn claim_released_when_post_recovery_publish_fails() {
    let d = disk();
    seed_crash_state(&d, b"");
    let err = fallback_fault(&d, "create", "injected fallback create failure")
        .boot()
        .expect_err("the forced publish failure must surface");
    assert!(err.contains("injected fallback create failure"), "{err}");
    assert!(names(&d, ".recovering.").is_empty());
}

#[test]
fn stale_marker_cannot_steal_a_live_publishers_round() {
    let d = disk();
    d.borrow_mut()
        .write(".identity.pem.publishing.00000.0", b"", 0o600);
    let shared = d.clone();
    let mut recovered = None;
    let result = Rc::new(RefCell::new(None));
    let seen = result.clone();
    let mut p = disturbed_at_commit(&d, move || {
        let mut other = start_as(&shared, 9, 9);
        let (end, _) = other.recover();
        recovered = Some(end);
        *seen.borrow_mut() = recovered;
    });
    let key = p.boot().expect("the publisher must resolve a key, demoted or not");
    assert_eq!(key, key_of(&d), "the publisher must not diverge from disk");
    assert_eq!(
        *result.borrow(),
        Some(Recovery::Loaded(key)),
        "recovery must converge on the same on-disk identity"
    );
    assert_regenerated(&d, key, 0);
}

#[test]
fn claim_crash_state_is_recoverable() {
    let d = disk();
    let claim = ".identity.pem.recovering.99999.0";
    d.borrow_mut().write(KEY, b"", 0o600);
    d.borrow_mut().write(claim, b"", 0o600);
    d.borrow_mut().age(claim, HOUR);
    let key = start(&d).boot().expect("a claim-crash state must recover");
    assert_regenerated(&d, key, 1);
}

#[test]
fn live_claims_are_not_claimable() {
    let d = disk();
    let claim = ".identity.pem.recovering.99999.0";
    d.borrow_mut().write(KEY, b"", 0o600);
    d.borrow_mut().write(claim, b"", 0o600);
    let err = start(&d).boot().expect_err("a fresh claim must never be stolen");
    assert!(err.contains("invalid PEM key"), "{err}");
    assert!(d.borrow().has(claim));
    assert!(names(&d, ".quarantined.").is_empty());
}

#[test]
fn stranded_quarantine_is_adopted_not_replaced() {
    let d = disk();
    let stranded = new_key(&d);
    d.borrow_mut()
        .write(".identity.pem.quarantined.99999.0", pem(stranded).as_bytes(), 0o600);
    assert_eq!(start(&d).boot(), Ok(stranded));
    assert_eq!(key_of(&d), stranded);
    assert!(names(&d, ".quarantined.").is_empty());
}

#[test]
fn aged_quarantine_is_never_adopted() {
    let d = disk();
    let stranded = new_key(&d);
    let q = ".identity.pem.quarantined.99999.0";
    d.borrow_mut().write(q, pem(stranded).as_bytes(), 0o600);
    d.borrow_mut().age(q, HOUR);
    let key = start(&d).boot().expect("an aged quarantine must not block generation");
    assert_ne!(key, stranded);
    assert_eq!(d.borrow().read(q).unwrap(), pem(stranded).into_bytes());
}

#[test]
fn operator_fresh_identity_procedure_works() {
    let d = disk();
    let first = start(&d).boot().expect("provision identity");
    let old = new_key(&d);
    let q = ".identity.pem.quarantined.88888.0";
    d.borrow_mut().write(q, pem(old).as_bytes(), 0o600);
    d.borrow_mut().age(q, HOUR);
    d.borrow_mut().remove(KEY);
    let key = start(&d).boot().expect("the post-delete boot must provision");
    assert_ne!(key, old);
    assert_ne!(key, first);
}

/// A recovery whose key is completed after the re-parse, and whose restore may be raced.
fn completed_in_the_window(d: &Shared, completed: u64, winner: Option<u64>) -> Process {
    let shared = d.clone();
    hooked(d, move |stage, op| {
        if stage.ends_with("FindFree { n: 0 }") {
            shared.borrow_mut().write(KEY, pem(completed).as_bytes(), 0o600);
        }
        if let Some(b) = winner {
            if stage.contains("publish: CreateTemp { n: 0 }") && stage.contains("| Restore") {
                assert_eq!(start_as(&shared, 31, 31).publish(b), Ok(true));
            }
            if stage.contains("| Restore") {
                return no_link(op);
            }
        }
        None
    })
}

#[test]
fn lost_restore_quarantine_is_never_adopted() {
    let d = disk();
    seed_crash_state(&d, b"");
    let (completed, b) = (new_key(&d), new_key(&d));
    let key = completed_in_the_window(&d, completed, Some(b)).boot();
    assert_eq!(key, Ok(b), "the recovering boot must converge on key B");
    d.borrow_mut().remove(KEY);
    let fresh = start(&d).boot().expect("the post-delete boot must provision");
    assert_ne!(fresh, completed, "the key that lost its round must not come back");
    assert_ne!(fresh, b);
    assert!(names(&d, ".quarantined.").is_empty());
    let superseded = names(&d, ".superseded.");
    assert_eq!(superseded.len(), 1);
    assert_eq!(d.borrow().read(&superseded[0]).unwrap(), pem(completed).into_bytes());
}

#[test]
fn adoption_supersedes_sibling_quarantines() {
    let d = disk();
    let (older, newer) = (new_key(&d), new_key(&d));
    d.borrow_mut()
        .write(".identity.pem.quarantined.99999.0", pem(older).as_bytes(), 0o600);
    d.borrow_mut().advance(20 * MILLISECOND);
    d.borrow_mut()
        .write(".identity.pem.quarantined.99999.1", pem(newer).as_bytes(), 0o600);
    assert_eq!(start(&d).boot(), Ok(newer), "adoption must prefer the newest");
    assert!(names(&d, ".quarantined.").is_empty());
    let superseded = names(&d, ".superseded.");
    assert_eq!(superseded.len(), 1);
    assert_eq!(d.borrow().read(&superseded[0]).unwrap(), pem(older).into_bytes());
    d.borrow_mut().remove(KEY);
    let fresh = start(&d).boot().expect("the post-delete boot must provision");
    assert_ne!(fresh, older);
    assert_ne!(fresh, newer);
}

#[test]
fn crash_between_won_and_sibling_supersede_leaves_no_adoptable() {
    let d = disk();
    let (winner, sibling) = (new_key(&d), new_key(&d));
    {
        let mut d = d.borrow_mut();
        d.write(KEY, pem(winner).as_bytes(), 0o600);
        d.write(".identity.pem.superseded.99999.0", pem(sibling).as_bytes(), 0o600);
        d.write(".identity.pem.quarantined.99999.1", pem(winner).as_bytes(), 0o600);
    }
    assert_eq!(start(&d).boot(), Ok(winner));
    d.borrow_mut().remove(KEY);
    assert_eq!(start(&d).boot(), Ok(winner), "only the winner's bytes may be re-adopted");

    let d = disk();
    d.borrow_mut()
        .write(".identity.pem.quarantined.99999.0", pem(sibling).as_bytes(), 0o600);
    assert_eq!(start(&d).boot(), Ok(sibling));
}

/// A start that a concurrent winner overtakes right before the scan for stranded keys.
fn overtaken(d: &Shared, winner: u64) -> Process {
    let shared = d.clone();
    hooked(d, move |_, op| {
        if matches!(op, KeyOp::ListAdoptable) && !shared.borrow().has(KEY) {
            assert_eq!(start_as(&shared, 31, 31).publish(winner), Ok(true));
        }
        None
    })
}

#[test]
fn adoption_lost_supersedes_the_losing_quarantine() {
    let d = disk();
    let (stranded, winner) = (new_key(&d), new_key(&d));
    d.borrow_mut()
        .write(".identity.pem.quarantined.99999.0", pem(stranded).as_bytes(), 0o600);
    assert_eq!(overtaken(&d, winner).boot(), Ok(winner));
    assert!(names(&d, ".quarantined.").is_empty());
    let superseded = names(&d, ".superseded.");
    assert_eq!(superseded.len(), 1);
    assert_eq!(d.borrow().read(&superseded[0]).unwrap(), pem(stranded).into_bytes());
    d.borrow_mut().remove(KEY);
    let fresh = start(&d).boot().expect("the post-delete boot must provision");
    assert_ne!(fresh, stranded);
    assert_ne!(fresh, winner);
}

#[test]
fn unparseable_quarantine_falls_through_to_generate() {
    let d = disk();
    let garbage: &[u8] = b"-----BEGIN nonsense truncated";
    let q = ".identity.pem.quarantined.99999.0";
    d.borrow_mut().write(q, garbage, 0o600);
    let key = start(&d).boot().expect("an unparseable quarantine must not block");
    assert_eq!(key_of(&d), key);
    assert_eq!(d.borrow().read(q).unwrap(), garbage);
}

/// Attempts to load a key that is healed before the given attempt.
fn healed_before_attempt(attempt: u32) -> BootLoadNext {
    let d = disk();
    seed_crash_state(&d, b"");
    let shared = d.clone();
    let mut calls = 0;
    let mut p = hooked(&d, move |stage, _| {
        if stage.contains("Attempt(Look)") {
            calls += 1;
            if calls == attempt {
                let mut d = shared.borrow_mut();
                d.remove(".identity.pem.publishing.99999.0");
                d.write(KEY, pem(5).as_bytes(), 0o600);
            }
        }
        None
    });
    let now = p.now();
    p.attempts(boot_load_key(true, now))
}

#[test]
fn mid_write_reader_does_not_hijack_before_grace() {
    assert_eq!(healed_before_attempt(2), BootLoadNext::Loaded(5));
}

#[test]
fn signature_requires_sustained_observation() {
    assert_eq!(healed_before_attempt(4), BootLoadNext::Loaded(5));
    assert!(matches!(
        healed_before_attempt(400),
        BootLoadNext::CrashSignature(LoadError::Content(_))
    ));
}

#[test]
fn post_claim_reparse_aborts_to_reload() {
    let d = disk();
    seed_crash_state(&d, b"");
    let completed = new_key(&d);
    let shared = d.clone();
    let mut p = hooked(&d, move |stage, _| {
        if stage.ends_with("Reparse(Look)") {
            shared.borrow_mut().write(KEY, pem(completed).as_bytes(), 0o600);
        }
        None
    });
    assert_eq!(p.boot(), Ok(completed));
    assert_regenerated(&d, completed, 0);
}

#[test]
fn reloaded_and_adoption_paths_sweep_before_returning() {
    let d = disk();
    seed_crash_state(&d, b"");
    let completed = new_key(&d);
    let shared = d.clone();
    let mut p = hooked(&d, move |stage, _| {
        if stage.ends_with("Reparse(Look)") {
            let mut d = shared.borrow_mut();
            d.write(KEY, pem(completed).as_bytes(), 0o600);
            d.write(".identity.pem.publishing.31337.0", b"", 0o600);
            d.write(".identity.pem.recovering.31337", b"", 0o600);
            d.age(".identity.pem.recovering.31337", HOUR);
        }
        None
    });
    assert_eq!(p.boot(), Ok(completed));
    assert!(names(&d, ".publishing.").is_empty());
    assert!(names(&d, ".recovering.").is_empty());

    let d = disk();
    let (stranded, winner) = (new_key(&d), new_key(&d));
    {
        let mut d = d.borrow_mut();
        d.write(".identity.pem.quarantined.99999.0", pem(stranded).as_bytes(), 0o600);
        d.write(".identity.pem.publishing.31337.0", b"", 0o600);
        d.write(".identity.pem.recovering.31337", b"", 0o600);
        d.age(".identity.pem.recovering.31337", HOUR);
    }
    assert_eq!(overtaken(&d, winner).boot(), Ok(winner));
    assert!(names(&d, ".publishing.").is_empty());
    assert!(names(&d, ".recovering.").is_empty());
}

#[test]
fn transient_reparse_error_releases_claims_and_fails_loudly() {
    let d = disk();
    seed_crash_state(&d, b"");
    let mut p = hooked(&d, |stage, op| match op {
        KeyOp::Stat(_) if stage.contains("| Reparse(") => {
            other("injected transient reparse failure")
        }
        _ => None,
    });
    let err = p.boot().expect_err("a transient re-parse failure must stay loud");
    assert!(err.contains("injected transient reparse failure"), "{err}");
    assert!(err.contains("claims released, nothing quarantined"), "{err}");
    assert_eq!(d.borrow().read(KEY).unwrap(), b"");
    assert!(names(&d, ".quarantined.").is_empty());
    assert!(names(&d, ".recovering.").is_empty());
}

#[test]
fn completed_key_is_restored_from_quarantine() {
    let d = disk();
    seed_crash_state(&d, b"");
    let completed = new_key(&d);
    assert_eq!(completed_in_the_window(&d, completed, None).boot(), Ok(completed));
    assert_regenerated(&d, completed, 0);
}

#[test]
fn restore_won_supersedes_siblings() {
    let d = disk();
    seed_crash_state(&d, b"");
    let (older, completed) = (new_key(&d), new_key(&d));
    d.borrow_mut()
        .write(".identity.pem.quarantined.11111.0", pem(older).as_bytes(), 0o600);
    assert_eq!(completed_in_the_window(&d, completed, None).boot(), Ok(completed));
    assert!(names(&d, ".quarantined.").is_empty());
    let superseded = names(&d, ".superseded.");
    assert_eq!(superseded.len(), 1);
    assert_eq!(d.borrow().read(&superseded[0]).unwrap(), pem(older).into_bytes());
    d.borrow_mut().remove(KEY);
    let fresh = start(&d).boot().expect("the post-delete boot must provision");
    assert_ne!(fresh, older);
    assert_ne!(fresh, completed);
}

#[test]
fn restore_never_clobbers_a_concurrent_winner() {
    let d = disk();
    seed_crash_state(&d, b"");
    let (completed, b) = (new_key(&d), new_key(&d));
    assert_eq!(completed_in_the_window(&d, completed, Some(b)).boot(), Ok(b));
    assert_eq!(names(&d, ".superseded.").len(), 1);
    assert_regenerated(&d, b, 0);
}

#[test]
fn failed_publisher_cleanup_spares_a_republished_final() {
    let d = disk();
    let (a, b) = (new_key(&d), new_key(&d));
    let shared = d.clone();
    let mut stolen = false;
    let mut p = hooked(&d, move |_, op| match op {
        KeyOp::SyncFile(FileRef::Final) => {
            if !stolen {
                stolen = true;
                let markers = names(&shared, ".publishing.");
                assert_eq!(markers.len(), 1);
                let claim = ".identity.pem.recovering.55555";
                assert!(shared.borrow_mut().rename(&markers[0], claim));
                assert!(shared
                    .borrow_mut()
                    .rename(KEY, ".identity.pem.quarantined.55555.0"));
                assert_eq!(start_as(&shared, 55555, 1).publish(b), Ok(true));
                assert!(shared.borrow_mut().remove(claim));
            }
            other("injected fsync failure")
        }
        op => no_link(op),
    });
    let err = p.publish(a).expect_err("A's failed fsync must still error");
    assert!(err.contains("injected fsync failure"), "{err}");
    assert_eq!(key_of(&d), b, "A's cleanup must spare the recoverer's key B");
    assert_regenerated(&d, b, 1);
}

#[test]
fn every_publish_failure_is_reported() {
    let io = |id| IoError {
        kind: IoKind::Other,
        id,
    };
    let place = start(&disk()).place();
    let texts = KeyTexts {
        errors: vec![
            ErrorText {
                file: "/keys/f".to_string(),
                text: "first".to_string(),
            },
            ErrorText {
                file: "/keys/g".to_string(),
                text: "second".to_string(),
            },
        ],
        listed: vec!["plain", "with \"quotes\"\n", "third"]
            .into_iter()
            .map(|name| ListedText {
                path: format!("/keys/{name}"),
                name: name.to_string(),
            })
            .collect(),
        claims: vec![2, 1],
    };
    let report = |f: PublishFailure| report_publish(&f, &place, &texts).join(": ");
    assert_eq!(report(PublishFailure::TempCreate(io(0))), "create temp key /keys/f: first");
    assert_eq!(report(PublishFailure::LinkedDirSync(io(1))), "second");
    assert_eq!(
        report(PublishFailure::FinalDirSync {
            error: io(0),
            link: io(1)
        }),
        format!(
            "flush the directory of identity key {} in hard_link fallback (link failed: second): \
             first",
            place.path
        )
    );
    assert!(report(PublishFailure::Unsettled {
        marker: io(0),
        link: io(1)
    })
    .ends_with(&format!(
        "(marker removal failed: first) (link failed: second): recovery round did not settle \
         within the 11s wait bound: recovery claim(s) {:?} still present beside {}",
        ["third", "with \"quotes\"\n"],
        place.path
    )));
    assert_eq!(
        report(PublishFailure::MarkerCreate {
            error: io(0),
            link: io(1)
        }),
        "create publish marker /keys/f in hard_link fallback (link failed: second): first"
    );
    assert_eq!(
        report(PublishFailure::MarkerNamesTaken { link: io(1) }),
        "all 64 publish marker names .identity.pem.publishing.4242.* in /keys are taken; remove \
         the stale marker files and restart (link failed: second)"
    );
    assert_eq!(
        report(PublishFailure::TempCreate(io(9))),
        "create temp key : ",
        "a number that was never given out has no words"
    );
}
