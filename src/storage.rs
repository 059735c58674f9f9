use core::cmp::Ordering;
use sha2::Digest;
use vstd::prelude::*;
use vstd::slice::{slice_subrange, slice_to_vec};
use vstd::string::StringExecFns;
use vstd::utf8::{encode_utf8, encode_utf8_valid_utf8};

use crate::entry::compare_bytes;
use crate::errors::StorageError;

verus! {

/// A store of vault files, addressed by vault name.
///
/// The model is the target vault and the bytes of each vault file. The
/// default model is an empty target and no vault files. A store whose methods
/// are not verified here, such as a store on disk run by the application,
/// keeps that default, and its methods are not held to the contracts below:
/// what those contracts, and the engine's, say about stored bytes holds for
/// the stores verified in this crate.
pub trait StoragePort: Sized {
    /// The name of the vault the store reads and writes.
    closed spec fn target(&self) -> Seq<char> {
        Seq::empty()
    }

    /// The bytes of the file of vault `name`, if there is one.
    closed spec fn file(&self, name: Seq<char>) -> Option<Seq<u8>> {
        None
    }

    /// The names of the vaults the store holds.
    fn list_vaults(&self) -> (r: Result<Vec<String>, StorageError>)
        ensures
            r matches Ok(v) ==> forall|i: int| 0 <= i < v@.len() ==> (#[trigger] self.file(v@[i]@)) is Some,
            r matches Ok(v) ==> forall|n: Seq<char>| (#[trigger] self.file(n)) is Some ==> exists|i: int| 0 <= i < v@.len() && v@[i]@ == n,
    ;

    /// Whether the target vault exists.
    fn vault_exists(&self) -> (r: bool)
        ensures
            r == self.file(self.target()) is Some,
    ;

    /// Makes `path` the target vault.
    fn set_path(&mut self, path: String)
        ensures
            final(self).target() == path@,
            forall|n: Seq<char>| #[trigger] final(self).file(n) == old(self).file(n),
    ;

    /// The bytes of the target vault.
    fn load(&self) -> (r: Result<Vec<u8>, StorageError>)
        ensures
            r matches Ok(b) ==> self.file(self.target()) == Some(b@),
    ;

    /// Replaces the bytes of the target vault; on failure no file changes.
    fn save(&mut self, data: &[u8]) -> (r: Result<(), StorageError>)
        ensures
            final(self).target() == old(self).target(),
            r is Ok ==> forall|n: Seq<char>| #[trigger] final(self).file(n) == if n == old(self).target() { Some(data@) } else { old(self).file(n) },
            r is Err ==> forall|n: Seq<char>| #[trigger] final(self).file(n) == old(self).file(n),
    ;
}

/// The bytes stored under `name`: those of its first pair.
pub open spec fn find_file(s: Seq<(String, Vec<u8>)>, name: Seq<char>) -> Option<Seq<u8>>
    decreases s.len(),
{
    if s.len() == 0 {
        None
    } else if s[0].0@ == name {
        Some(s[0].1@)
    } else {
        find_file(s.drop_first(), name)
    }
}

proof fn lemma_find_first(s: Seq<(String, Vec<u8>)>, i: int)
    requires
        0 <= i < s.len(),
        forall|j: int| 0 <= j < i ==> s[j].0@ != s[i].0@,
    ensures
        find_file(s, s[i].0@) == Some(s[i].1@),
    decreases i,
{
    if i > 0 {
        assert(s.drop_first()[i - 1] == s[i]);
        assert forall|j: int| 0 <= j < i - 1 implies (#[trigger] s.drop_first()[j]).0@ != s.drop_first()[i - 1].0@ by {
            assert(s.drop_first()[j] == s[j + 1]);
        }
        lemma_find_first(s.drop_first(), i - 1);
    }
}

proof fn lemma_find_absent(s: Seq<(String, Vec<u8>)>, name: Seq<char>)
    ensures
        (forall|j: int| 0 <= j < s.len() ==> s[j].0@ != name) <==> find_file(s, name) is None,
    decreases s.len(),
{
    if s.len() > 0 {
        lemma_find_absent(s.drop_first(), name);
        if find_file(s, name) is None {
            assert forall|j: int| 0 <= j < s.len() implies s[j].0@ != name by {
                if j > 0 {
                    assert(s.drop_first()[j - 1] == s[j]);
                }
            }
        }
        if forall|j: int| 0 <= j < s.len() ==> s[j].0@ != name {
            assert forall|j: int| 0 <= j < s.drop_first().len() implies (#[trigger] s.drop_first()[j]).0@ != name by {
                assert(s.drop_first()[j] == s[j + 1]);
            }
        }
    }
}

proof fn lemma_find_update(s: Seq<(String, Vec<u8>)>, i: int, p: (String, Vec<u8>), name: Seq<char>)
    requires
        0 <= i < s.len(),
        p.0@ == s[i].0@,
        forall|j: int| 0 <= j < i ==> s[j].0@ != s[i].0@,
    ensures
        find_file(s.update(i, p), name) == if name == p.0@ { Some(p.1@) } else { find_file(s, name) },
    decreases i,
{
    if i > 0 {
        assert(s.update(i, p).drop_first() =~= s.drop_first().update(i - 1, p));
        assert(s.drop_first()[i - 1] == s[i]);
        assert forall|j: int| 0 <= j < i - 1 implies (#[trigger] s.drop_first()[j]).0@ != s.drop_first()[i - 1].0@ by {
            assert(s.drop_first()[j] == s[j + 1]);
        }
        lemma_find_update(s.drop_first(), i - 1, p, name);
    } else {
        assert(s.update(i, p).drop_first() =~= s.drop_first());
    }
}

proof fn lemma_find_push(s: Seq<(String, Vec<u8>)>, p: (String, Vec<u8>), name: Seq<char>)
    requires
        forall|j: int| 0 <= j < s.len() ==> s[j].0@ != p.0@,
    ensures
        find_file(s.push(p), name) == if name == p.0@ { Some(p.1@) } else { find_file(s, name) },
    decreases s.len(),
{
    if s.len() == 0 {
        assert(s.push(p).drop_first() =~= Seq::<(String, Vec<u8>)>::empty());
        assert(s.push(p)[0] == p);
        assert(find_file(s.push(p).drop_first(), name) is None);
    } else {
        assert(s.push(p).drop_first() =~= s.drop_first().push(p));
        assert(s.push(p)[0] == s[0]);
        assert forall|j: int| 0 <= j < s.drop_first().len() implies (#[trigger] s.drop_first()[j]).0@ != p.0@ by {
            assert(s.drop_first()[j] == s[j + 1]);
        }
        lemma_find_push(s.drop_first(), p, name);
    }
}

/// A store that keeps vault files in memory.
pub struct MemoryStorage {
    files: Vec<(String, Vec<u8>)>,
    target: String,
}

impl MemoryStorage {
    /// An empty store whose target is the vault `default`.
    pub fn new() -> (r: MemoryStorage)
        ensures
            r.target() == "default"@,
            forall|n: Seq<char>| (#[trigger] r.file(n)) is None,
    {
        MemoryStorage { files: Vec::new(), target: "default".to_owned() }
    }

    /// The first place where the target vault is kept, if it is.
    fn position(&self) -> (r: Option<usize>)
        ensures
            r matches Some(i) ==> i < self.files@.len() && self.files@[i as int].0@ == self.target@
                && forall|j: int| 0 <= j < i ==> #[trigger] self.files@[j].0@ != self.target@,
            r is None ==> forall|i: int|
                0 <= i < self.files@.len() ==> #[trigger] self.files@[i].0@ != self.target@,
    {
        let key = self.target.as_str().as_bytes();
        let mut i: usize = 0;
        while i < self.files.len()
            invariant
                i <= self.files@.len(),
                key@ == vstd::utf8::encode_utf8(self.target@),
                forall|j: int| 0 <= j < i ==> #[trigger] self.files@[j].0@ != self.target@,
            decreases self.files@.len() - i,
        {
            let c = compare_bytes(self.files[i].0.as_str().as_bytes(), key);
            if matches!(c, Ordering::Equal) {
                proof {
                    crate::entry::lemma_key_injective(self.files@[i as int].0@, self.target@);
                }
                return Some(i);
            }
            i += 1;
        }
        None
    }
}

impl StoragePort for MemoryStorage {
    closed spec fn target(&self) -> Seq<char> {
        self.target@
    }

    closed spec fn file(&self, name: Seq<char>) -> Option<Seq<u8>> {
        find_file(self.files@, name)
    }

    fn list_vaults(&self) -> (r: Result<Vec<String>, StorageError>) {
        let mut out: Vec<String> = Vec::new();
        let mut i: usize = 0;
        while i < self.files.len()
            invariant
                i <= self.files@.len(),
                out@.len() == i,
                forall|j: int| 0 <= j < i ==> #[trigger] out@[j]@ == self.files@[j].0@,
            decreases self.files@.len() - i,
        {
            out.push(self.files[i].0.clone());
            i += 1;
        }
        proof {
            let s = self.files@;
            assert forall|k: int| 0 <= k < out@.len() implies (#[trigger] self.file(out@[k]@)) is Some by {
                lemma_find_absent(s, out@[k]@);
            }
            assert forall|n: Seq<char>| (#[trigger] self.file(n)) is Some implies exists|k: int| 0 <= k < out@.len() && out@[k]@ == n by {
                lemma_find_absent(s, n);
                let k = choose|k: int| 0 <= k < s.len() && s[k].0@ == n;
                assert(out@[k]@ == n);
            }
        }
        Ok(out)
    }

    fn vault_exists(&self) -> (r: bool) {
        proof {
            lemma_find_absent(self.files@, self.target@);
        }
        self.position().is_some()
    }

    fn set_path(&mut self, path: String) {
        self.target = path;
    }

    fn load(&self) -> (r: Result<Vec<u8>, StorageError>) {
        match self.position() {
            Some(i) => {
                proof {
                    lemma_find_first(self.files@, i as int);
                }
                Ok(slice_to_vec(self.files[i].1.as_slice()))
            },
            None => Err(StorageError::Io("vault file not found".to_string())),
        }
    }

    fn save(&mut self, data: &[u8]) -> (r: Result<(), StorageError>) {
        let bytes = slice_to_vec(data);
        let name = self.target.clone();
        let ghost old_files = self.files@;
        match self.position() {
            Some(i) => {
                proof {
                    assert forall|n: Seq<char>| #[trigger] find_file(old_files.update(i as int, (name, bytes)), n) == if n == self.target@ { Some(data@) } else { find_file(old_files, n) } by {
                        lemma_find_update(old_files, i as int, (name, bytes), n);
                    }
                }
                self.files.set(i, (name, bytes));
            },
            None => {
                proof {
                    assert forall|n: Seq<char>| #[trigger] find_file(old_files.push((name, bytes)), n) == if n == self.target@ { Some(data@) } else { find_file(old_files, n) } by {
                        lemma_find_push(old_files, (name, bytes), n);
                    }
                }
                self.files.push((name, bytes));
            },
        }
        Ok(())
    }
}

/// The name of the file that holds the vault `name`.
pub fn vault_file_name(name: &str) -> (r: String)
    ensures
        r@ == name@ + ".vault"@,
{
    name.to_owned().concat(".vault")
}

/// The vault that a file holds, where the file's name is the vault's name
/// followed by `.vault`; `None` for any other file name.
pub fn vault_name_of(file_name: &str) -> (r: Option<String>)
    ensures
        r matches Some(s) ==> encode_utf8(s@).len() > 0 && encode_utf8(file_name@) == encode_utf8(s@) + encode_utf8(".vault"@),
        forall|t: Seq<char>| #![trigger encode_utf8(t)] encode_utf8(t).len() > 0 && encode_utf8(file_name@) == encode_utf8(t) + encode_utf8(".vault"@) ==> (r matches Some(s) && s@ == t),
{
    let b = file_name.as_bytes();
    let ext = ".vault".as_bytes();
    let ghost e = encode_utf8(".vault"@);
    if b.len() <= ext.len() {
        return None;
    }
    let cut = b.len() - ext.len();
    let tail = slice_subrange(b, cut, b.len());
    if !matches!(compare_bytes(tail, ext), Ordering::Equal) {
        proof {
            assert forall|t: Seq<char>| #![trigger encode_utf8(t)] !(encode_utf8(t).len() > 0 && encode_utf8(file_name@) == encode_utf8(t) + e) by {
                if encode_utf8(t).len() > 0 && encode_utf8(file_name@) == encode_utf8(t) + e {
                    assert(tail@ =~= e);
                }
            }
        }
        return None;
    }
    let stem = slice_to_vec(slice_subrange(b, 0, cut));
    let ghost stem_bytes = stem@;
    proof {
        assert(b@ =~= stem_bytes + e);
        assert forall|t: Seq<char>| #![trigger encode_utf8(t)] encode_utf8(t).len() > 0 && encode_utf8(file_name@) == encode_utf8(t) + e implies encode_utf8(t) == stem_bytes by {
            assert(encode_utf8(t) =~= b@.subrange(0, cut as int));
        }
    }
    match crate::codec::string_from_utf8(stem) {
        Some(s) => {
            proof {
                assert forall|t: Seq<char>| #![trigger encode_utf8(t)] encode_utf8(t).len() > 0 && encode_utf8(file_name@) == encode_utf8(t) + e implies s@ == t by {
                    crate::entry::lemma_key_injective(s@, t);
                }
            }
            Some(s)
        },
        None => {
            proof {
                assert forall|t: Seq<char>| #![trigger encode_utf8(t)] !(encode_utf8(t).len() > 0 && encode_utf8(file_name@) == encode_utf8(t) + e) by {
                    encode_utf8_valid_utf8(t);
                }
            }
            None
        },
    }
}

/// The SHA-256 digest of a byte string.
pub uninterp spec fn sha256_of(data: Seq<u8>) -> Seq<u8>;

/// Relies on sha2::Sha256's Digest::digest: the 32-byte SHA-256 digest of the
/// bytes, which depends on the bytes alone.
#[verifier::external_body]
fn sha256(data: &[u8]) -> (r: Vec<u8>)
    ensures
        r@ == sha256_of(data@),
{
    sha2::Sha256::digest(data).to_vec()
}

/// Whether two byte strings have the same SHA-256 digest.
pub fn same_digest(a: &[u8], b: &[u8]) -> (r: bool)
    ensures
        r == (sha256_of(a@) == sha256_of(b@)),
{
    let da = sha256(a);
    let db = sha256(b);
    matches!(compare_bytes(da.as_slice(), db.as_slice()), Ordering::Equal)
}

/// Where a crash-safe save of a vault file stands: each phase but the last
/// waits for the outcome of one action on the disk.
pub enum SavePhase {
    /// Waiting for the vault directory to be created if missing.
    EnsuringDir,
    /// Waiting to learn whether the vault file exists.
    CheckingTarget,
    /// Waiting for the vault file to be copied to its backup.
    BackingUp,
    /// Waiting for the contents of the vault file and of its backup.
    Verifying,
    /// Waiting for the new bytes to be written and synced; `backed_up` tells
    /// whether a verified backup of the previous file exists.
    Writing { backed_up: bool },
    /// Waiting for the backup to be copied back over the vault file.
    Restoring,
    /// Waiting for a vault file that did not exist before the save, and
    /// whose write failed, to be removed.
    Removing,
    /// The save is over. `intact` tells whether the vault file is known to
    /// hold exactly its bytes from before the save.
    Done { result: Result<(), StorageError>, intact: bool },
}

/// What the store is to do next.
pub enum SaveAction {
    /// Create the vault directory if it is missing.
    EnsureDir,
    /// Tell whether the vault file exists.
    CheckTarget,
    /// Copy the vault file to its backup.
    CopyToBackup,
    /// Read the vault file and its backup.
    ReadBoth,
    /// Write the new bytes to the vault file and sync them to stable storage.
    WriteAndSync,
    /// Copy the backup over the vault file.
    RestoreBackup,
    /// Remove the vault file.
    RemoveTarget,
    /// Stop: the save is over.
    Finish,
}

/// The outcome of an action.
pub enum SaveEvent {
    /// The action succeeded.
    Completed,
    /// The action failed; the text says how.
    Failed(String),
    /// The vault file exists or not.
    Exists(bool),
    /// The bytes of the vault file and of its backup.
    Contents(Vec<u8>, Vec<u8>),
}

/// The action a phase waits for.
pub open spec fn action_of(phase: SavePhase) -> SaveAction {
    match phase {
        SavePhase::EnsuringDir => SaveAction::EnsureDir,
        SavePhase::CheckingTarget => SaveAction::CheckTarget,
        SavePhase::BackingUp => SaveAction::CopyToBackup,
        SavePhase::Verifying => SaveAction::ReadBoth,
        SavePhase::Writing { .. } => SaveAction::WriteAndSync,
        SavePhase::Restoring => SaveAction::RestoreBackup,
        SavePhase::Removing => SaveAction::RemoveTarget,
        SavePhase::Done { .. } => SaveAction::Finish,
    }
}

/// The end of a save after a failed action: an I/O error with the failure's
/// text, or an integrity error for an outcome that does not answer the action.
pub open spec fn failed_with(event: SaveEvent, intact: bool) -> SavePhase {
    match event {
        SaveEvent::Failed(m) => SavePhase::Done { result: Err(StorageError::Io(m)), intact },
        _ => SavePhase::Done { result: Err(StorageError::IntegrityError), intact },
    }
}

/// The next phase of a save, from the outcome of the awaited action.
pub open spec fn save_next(phase: SavePhase, event: SaveEvent) -> SavePhase {
    match phase {
        SavePhase::EnsuringDir => match event {
            SaveEvent::Completed => SavePhase::CheckingTarget,
            _ => failed_with(event, true),
        },
        SavePhase::CheckingTarget => match event {
            SaveEvent::Exists(true) => SavePhase::BackingUp,
            SaveEvent::Exists(false) => SavePhase::Writing { backed_up: false },
            _ => failed_with(event, true),
        },
        SavePhase::BackingUp => match event {
            SaveEvent::Completed => SavePhase::Verifying,
            _ => failed_with(event, true),
        },
        SavePhase::Verifying => match event {
            SaveEvent::Contents(a, b) => if sha256_of(a@) == sha256_of(b@) {
                SavePhase::Writing { backed_up: true }
            } else {
                SavePhase::Done { result: Err(StorageError::IntegrityError), intact: true }
            },
            _ => failed_with(event, true),
        },
        SavePhase::Writing { backed_up } => match event {
            SaveEvent::Completed => SavePhase::Done { result: Ok(()), intact: false },
            _ => if backed_up {
                SavePhase::Restoring
            } else {
                SavePhase::Removing
            },
        },
        SavePhase::Removing => match event {
            SaveEvent::Completed => SavePhase::Done {
                result: Err(StorageError::IntegrityError),
                intact: true,
            },
            _ => failed_with(event, false),
        },
        SavePhase::Restoring => match event {
            SaveEvent::Completed => SavePhase::Done {
                result: Err(StorageError::IntegrityError),
                intact: true,
            },
            _ => failed_with(event, false),
        },
        SavePhase::Done { result, intact } => SavePhase::Done { result, intact },
    }
}

/// The phase a save starts in.
pub fn save_begin() -> (r: SavePhase)
    ensures
        r == SavePhase::EnsuringDir,
{
    SavePhase::EnsuringDir
}

fn fail(event: SaveEvent, intact: bool) -> (r: SavePhase)
    ensures
        r == failed_with(event, intact),
{
    match event {
        SaveEvent::Failed(m) => SavePhase::Done { result: Err(StorageError::Io(m)), intact },
        _ => SavePhase::Done { result: Err(StorageError::IntegrityError), intact },
    }
}

/// Decides the next phase of a save from the outcome of the awaited action.
pub fn save_step(phase: SavePhase, event: SaveEvent) -> (r: SavePhase)
    ensures
        r == save_next(phase, event),
{
    match phase {
        SavePhase::EnsuringDir => match event {
            SaveEvent::Completed => SavePhase::CheckingTarget,
            other => fail(other, true),
        },
        SavePhase::CheckingTarget => match event {
            SaveEvent::Exists(true) => SavePhase::BackingUp,
            SaveEvent::Exists(false) => SavePhase::Writing { backed_up: false },
            other => fail(other, true),
        },
        SavePhase::BackingUp => match event {
            SaveEvent::Completed => SavePhase::Verifying,
            other => fail(other, true),
        },
        SavePhase::Verifying => match event {
            SaveEvent::Contents(a, b) => {
                if same_digest(a.as_slice(), b.as_slice()) {
                    SavePhase::Writing { backed_up: true }
                } else {
                    SavePhase::Done { result: Err(StorageError::IntegrityError), intact: true }
                }
            },
            other => fail(other, true),
        },
        SavePhase::Writing { backed_up } => match event {
            SaveEvent::Completed => SavePhase::Done { result: Ok(()), intact: false },
            _ => {
                if backed_up {
                    SavePhase::Restoring
                } else {
                    SavePhase::Removing
                }
            },
        },
        SavePhase::Removing => match event {
            SaveEvent::Completed => SavePhase::Done {
                result: Err(StorageError::IntegrityError),
                intact: true,
            },
            other => fail(other, false),
        },
        SavePhase::Restoring => match event {
            SaveEvent::Completed => SavePhase::Done {
                result: Err(StorageError::IntegrityError),
                intact: true,
            },
            other => fail(other, false),
        },
        SavePhase::Done { result, intact } => SavePhase::Done { result, intact },
    }
}

impl SavePhase {
    /// The action this phase waits for.
    pub fn action(&self) -> (r: SaveAction)
        ensures
            r == action_of(*self),
    {
        match self {
            SavePhase::EnsuringDir => SaveAction::EnsureDir,
            SavePhase::CheckingTarget => SaveAction::CheckTarget,
            SavePhase::BackingUp => SaveAction::CopyToBackup,
            SavePhase::Verifying => SaveAction::ReadBoth,
            SavePhase::Writing { .. } => SaveAction::WriteAndSync,
            SavePhase::Restoring => SaveAction::RestoreBackup,
            SavePhase::Removing => SaveAction::RemoveTarget,
            SavePhase::Done { .. } => SaveAction::Finish,
        }
    }

    /// The outcome of a finished save; `None` while it is not over.
    pub fn outcome(self) -> (r: Option<Result<(), StorageError>>)
        ensures
            self matches SavePhase::Done { result, .. } ==> r == Some(result),
            !(self is Done) ==> r is None,
    {
        match self {
            SavePhase::Done { result, .. } => Some(result),
            _ => None,
        }
    }
}

/// The vault file and its backup, as the save protocol sees them: the bytes
/// of each, or `None` where there is no such file.
pub struct DiskModel {
    pub target: Option<Seq<u8>>,
    pub backup: Option<Seq<u8>>,
}

/// `event` can be the outcome of performing `action`, which writes `data`, on
/// the disk `before`, and the disk is `after` once it is done.
pub open spec fn performed(
    action: SaveAction,
    data: Seq<u8>,
    before: DiskModel,
    event: SaveEvent,
    after: DiskModel,
) -> bool {
    match action {
        SaveAction::EnsureDir => after == before,
        SaveAction::CheckTarget => after == before && (event matches SaveEvent::Exists(e) ==> e
            == before.target is Some),
        SaveAction::CopyToBackup => after.target == before.target && (event is Completed
            ==> after.backup == before.target),
        SaveAction::ReadBoth => after == before && (event matches SaveEvent::Contents(a, b)
            ==> before.target == Some(a@) && before.backup == Some(b@)),
        SaveAction::WriteAndSync => after.backup == before.backup && (event is Completed
            ==> after.target == Some(data)),
        SaveAction::RestoreBackup => after.backup == before.backup && (event is Completed
            ==> after.target == before.backup),
        SaveAction::RemoveTarget => after.backup == before.backup && (event is Completed
            ==> after.target is None),
        SaveAction::Finish => after == before,
    }
}

/// What a phase of a save of `data` knows of the disk, where the vault file
/// held `orig` when the save began.
pub open spec fn save_invariant(
    phase: SavePhase,
    disk: DiskModel,
    orig: Option<Seq<u8>>,
    data: Seq<u8>,
) -> bool {
    match phase {
        SavePhase::EnsuringDir => disk.target == orig,
        SavePhase::CheckingTarget => disk.target == orig,
        SavePhase::BackingUp => disk.target == orig && orig is Some,
        SavePhase::Verifying => disk.target == orig && disk.backup == orig && orig is Some,
        SavePhase::Writing { backed_up } => disk.target == orig && (backed_up ==> disk.backup
            == orig && orig is Some) && (!backed_up ==> orig is None),
        SavePhase::Restoring => disk.backup == orig && orig is Some,
        SavePhase::Removing => orig is None,
        SavePhase::Done { result, intact } => (result is Ok ==> disk.target == Some(data)) && (
        intact ==> disk.target == orig),
    }
}

/// A save never leaves a partial write behind: every step of the protocol,
/// whatever the outcome of its action, keeps what the phase knows of the disk.
/// So a save that ends in success has written its bytes, and one that ends
/// with the file marked intact has left the file's bytes exactly as they were.
pub proof fn law_save_step(
    phase: SavePhase,
    disk: DiskModel,
    event: SaveEvent,
    after: DiskModel,
    orig: Option<Seq<u8>>,
    data: Seq<u8>,
)
    requires
        save_invariant(phase, disk, orig, data),
        performed(action_of(phase), data, disk, event, after),
    ensures
        save_invariant(save_next(phase, event), after, orig, data),
{
}

/// A save begins knowing only that the vault file holds what it held.
pub proof fn law_save_begins(disk: DiskModel, data: Seq<u8>)
    ensures
        save_invariant(SavePhase::EnsuringDir, disk, disk.target, data),
{
}

/// A save of a vault file that did not exist, whose write or sync fails,
/// removes what was written: once the removal completes there is again no
/// vault file, and the save reports an integrity error.
pub proof fn law_failed_first_write_removes(
    disk: DiskModel,
    event: SaveEvent,
    mid: DiskModel,
    after: DiskModel,
    orig: Option<Seq<u8>>,
    data: Seq<u8>,
)
    requires
        save_invariant(SavePhase::Writing { backed_up: false }, disk, orig, data),
        !(event is Completed),
        performed(SaveAction::WriteAndSync, data, disk, event, mid),
        performed(SaveAction::RemoveTarget, data, mid, SaveEvent::Completed, after),
    ensures
        save_next(SavePhase::Writing { backed_up: false }, event) == SavePhase::Removing,
        save_next(SavePhase::Removing, SaveEvent::Completed) == (SavePhase::Done {
            result: Err(StorageError::IntegrityError),
            intact: true,
        }),
        after.target == orig,
        orig is None,
{
}

/// A save whose write or sync fails after the backup was verified restores
/// the backup, and the vault file then holds exactly its bytes from before
/// the save; the save reports an integrity error.
pub proof fn law_failed_write_restores(
    disk: DiskModel,
    event: SaveEvent,
    mid: DiskModel,
    after: DiskModel,
    orig: Option<Seq<u8>>,
    data: Seq<u8>,
)
    requires
        save_invariant(SavePhase::Writing { backed_up: true }, disk, orig, data),
        !(event is Completed),
        performed(SaveAction::WriteAndSync, data, disk, event, mid),
        performed(SaveAction::RestoreBackup, data, mid, SaveEvent::Completed, after),
    ensures
        save_next(SavePhase::Writing { backed_up: true }, event) == SavePhase::Restoring,
        save_next(SavePhase::Restoring, SaveEvent::Completed) == (SavePhase::Done {
            result: Err(StorageError::IntegrityError),
            intact: true,
        }),
        after.target == orig,
{
}

} // verus!
