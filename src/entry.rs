use core::cmp::Ordering;
use vstd::prelude::*;
use vstd::utf8::{encode_utf8, encode_utf8_decode_utf8};

verus! {

/// One credential record.
#[derive(Debug, Clone, PartialEq, Eq)]
pub struct Entry {
    pub service: String,
    pub username: String,
    pub passwd: String,
    pub created_at: i64,
    pub updated_at: i64,
}

/// What an entry holds, as mathematical values.
pub struct EntryView {
    pub service: Seq<char>,
    pub username: Seq<char>,
    pub passwd: Seq<char>,
    pub created_at: i64,
    pub updated_at: i64,
}

impl View for Entry {
    type V = EntryView;

    open spec fn view(&self) -> EntryView {
        EntryView {
            service: self.service@,
            username: self.username@,
            passwd: self.passwd@,
            created_at: self.created_at,
            updated_at: self.updated_at,
        }
    }
}

/// Relies on std's SystemTime::now().duration_since(UNIX_EPOCH) and chrono's
/// DateTime::from_timestamp and timestamp: the current time in whole seconds
/// since the Unix epoch, or `None` when the clock reads before the epoch or
/// out of chrono's range. Nothing is promised of the value.
#[verifier::external_body]
pub(crate) fn unix_now() -> (r: Option<i64>) {
    match std::time::SystemTime::now().duration_since(std::time::UNIX_EPOCH) {
        Ok(d) => match chrono::DateTime::from_timestamp(d.as_secs() as i64, d.subsec_nanos()) {
            Some(t) => Some(t.timestamp()),
            None => None,
        },
        Err(_) => None,
    }
}

/// Relies on zeroize's Zeroize for String: the bytes are overwritten with
/// zeros, then the string is cleared.
#[verifier::external_body]
fn wipe_text(s: &mut String)
    ensures
        final(s)@.len() == 0,
    opens_invariants none
    no_unwind
{
    zeroize::Zeroize::zeroize(s);
}

impl Entry {
    /// Overwrites the entry's texts with zeros and empties them, and zeroes
    /// its times.
    pub fn wipe(&mut self)
        ensures
            final(self).service@.len() == 0,
            final(self).username@.len() == 0,
            final(self).passwd@.len() == 0,
            final(self).created_at == 0,
            final(self).updated_at == 0,
        opens_invariants none
        no_unwind
    {
        wipe_text(&mut self.service);
        wipe_text(&mut self.username);
        wipe_text(&mut self.passwd);
        self.created_at = 0;
        self.updated_at = 0;
    }

    /// A new entry created and updated at `now`.
    pub fn with_time(service: String, username: String, passwd: String, now: i64) -> (r: Entry)
        ensures
            r.service@ == service@,
            r.username@ == username@,
            r.passwd@ == passwd@,
            r.created_at == now,
            r.updated_at == now,
    {
        Entry { service, username, passwd, created_at: now, updated_at: now }
    }

    /// A new entry whose creation and update times are both the current
    /// time; `None` when the clock cannot be read.
    pub fn new(service: String, username: String, passwd: String) -> (r: Option<Entry>)
        ensures
            r matches Some(e) ==> e.service@ == service@ && e.username@ == username@ && e.passwd@ == passwd@ && e.created_at == e.updated_at,
    {
        match unix_now() {
            Some(now) => Some(Entry::with_time(service, username, passwd, now)),
            None => None,
        }
    }
}

impl Drop for Entry {
    /// An entry's texts are wiped whenever it goes out of scope.
    fn drop(&mut self)
        opens_invariants none
        no_unwind
    {
        self.wipe();
    }
}

/// Strict lexicographic order on byte strings; a proper prefix comes first.
/// This is the order of `str` and `String`.
pub open spec fn bytes_lt(a: Seq<u8>, b: Seq<u8>) -> bool
    decreases a.len(),
{
    if a.len() == 0 {
        b.len() > 0
    } else if b.len() == 0 {
        false
    } else if a[0] != b[0] {
        a[0] < b[0]
    } else {
        bytes_lt(a.drop_first(), b.drop_first())
    }
}

pub proof fn lemma_bytes_lt_irreflexive(a: Seq<u8>)
    ensures
        !bytes_lt(a, a),
    decreases a.len(),
{
    if a.len() > 0 {
        lemma_bytes_lt_irreflexive(a.drop_first());
    }
}

pub proof fn lemma_bytes_lt_total(a: Seq<u8>, b: Seq<u8>)
    ensures
        a != b ==> bytes_lt(a, b) || bytes_lt(b, a),
        !(bytes_lt(a, b) && bytes_lt(b, a)),
    decreases a.len(),
{
    if a.len() > 0 && b.len() > 0 {
        lemma_bytes_lt_total(a.drop_first(), b.drop_first());
        if a[0] == b[0] && a.drop_first() == b.drop_first() {
            assert(a =~= seq![a[0]] + a.drop_first());
            assert(b =~= seq![b[0]] + b.drop_first());
        }
    } else if a.len() == 0 && b.len() == 0 {
        assert(a =~= b);
    }
}

pub proof fn lemma_bytes_lt_transitive(a: Seq<u8>, b: Seq<u8>, c: Seq<u8>)
    requires
        bytes_lt(a, b),
        bytes_lt(b, c),
    ensures
        bytes_lt(a, c),
    decreases a.len(),
{
    if a.len() > 0 && b.len() > 0 && c.len() > 0 && a[0] == b[0] && b[0] == c[0] {
        lemma_bytes_lt_transitive(a.drop_first(), b.drop_first(), c.drop_first());
    }
}

/// The bytes by which an entry is ordered: its service name in UTF-8.
pub open spec fn key_of(e: EntryView) -> Seq<u8> {
    encode_utf8(e.service)
}

/// The views of a sequence of entries.
pub open spec fn views(v: Seq<Entry>) -> Seq<EntryView> {
    v.map_values(|e: Entry| e@)
}

/// Entries in strictly ascending order of service name, hence with unique
/// service names.
pub open spec fn sorted_by_service(s: Seq<EntryView>) -> bool {
    forall|i: int, j: int| 0 <= i < j < s.len() ==> bytes_lt(key_of(s[i]), key_of(s[j]))
}

/// Whether some entry belongs to `service`.
pub open spec fn has_service(s: Seq<EntryView>, service: Seq<char>) -> bool {
    exists|i: int| 0 <= i < s.len() && s[i].service == service
}

/// Two service names with the same UTF-8 bytes are the same name.
pub proof fn lemma_key_injective(a: Seq<char>, b: Seq<char>)
    requires
        encode_utf8(a) == encode_utf8(b),
    ensures
        a == b,
{
    encode_utf8_decode_utf8(a);
    encode_utf8_decode_utf8(b);
}

/// In a sorted sequence at most one entry belongs to a service.
pub proof fn lemma_sorted_unique(s: Seq<EntryView>, i: int, j: int)
    requires
        sorted_by_service(s),
        0 <= i < s.len(),
        0 <= j < s.len(),
        s[i].service == s[j].service,
    ensures
        i == j,
{
    if i < j {
        assert(bytes_lt(key_of(s[i]), key_of(s[j])));
        lemma_bytes_lt_irreflexive(key_of(s[i]));
    } else if j < i {
        assert(bytes_lt(key_of(s[j]), key_of(s[i])));
        lemma_bytes_lt_irreflexive(key_of(s[j]));
    }
}

/// Compares two byte strings in the order of `bytes_lt`.
pub fn compare_bytes(a: &[u8], b: &[u8]) -> (r: Ordering)
    ensures
        (r == Ordering::Less) == bytes_lt(a@, b@),
        (r == Ordering::Equal) == (a@ == b@),
        (r == Ordering::Greater) == bytes_lt(b@, a@),
{
    proof {
        lemma_bytes_lt_total(a@, b@);
        lemma_bytes_lt_irreflexive(a@);
        assert(a@.skip(0) =~= a@);
        assert(b@.skip(0) =~= b@);
    }
    let mut i: usize = 0;
    while i < a.len() && i < b.len()
        invariant
            0 <= i <= a@.len(),
            i <= b@.len(),
            a@.subrange(0, i as int) == b@.subrange(0, i as int),
            bytes_lt(a@, b@) == bytes_lt(a@.skip(i as int), b@.skip(i as int)),
            bytes_lt(b@, a@) == bytes_lt(b@.skip(i as int), a@.skip(i as int)),
        decreases a@.len() - i,
    {
        assert(a@.skip(i as int)[0] == a@[i as int]);
        assert(b@.skip(i as int)[0] == b@[i as int]);
        if a[i] != b[i] {
            if a[i] < b[i] {
                return Ordering::Less;
            } else {
                return Ordering::Greater;
            }
        }
        assert(a@.skip(i as int).drop_first() =~= a@.skip(i + 1));
        assert(b@.skip(i as int).drop_first() =~= b@.skip(i + 1));
        assert(a@.subrange(0, i + 1) =~= a@.subrange(0, i as int).push(a@[i as int]));
        assert(b@.subrange(0, i + 1) =~= b@.subrange(0, i as int).push(b@[i as int]));
        i += 1;
    }
    if a.len() == b.len() {
        assert(a@ =~= a@.subrange(0, i as int));
        assert(b@ =~= b@.subrange(0, i as int));
        Ordering::Equal
    } else if a.len() < b.len() {
        assert(a@.skip(i as int).len() == 0);
        Ordering::Less
    } else {
        assert(b@.skip(i as int).len() == 0);
        Ordering::Greater
    }
}

/// Where `service` stands in a sorted sequence of entries: the number of
/// entries ordered before it, and whether the entry at that place is its own.
pub fn find_slot(entries: &Vec<Entry>, service: &str) -> (r: (usize, bool))
    requires
        sorted_by_service(views(entries@)),
    ensures
        r.0 <= entries@.len(),
        forall|i: int| 0 <= i < r.0 ==> bytes_lt(key_of(#[trigger] entries@[i]@), encode_utf8(service@)),
        forall|j: int| r.0 <= j < entries@.len() ==> !bytes_lt(key_of(#[trigger] entries@[j]@), encode_utf8(service@)),
        r.1 == has_service(views(entries@), service@),
        r.1 ==> r.0 < entries@.len() && entries@[r.0 as int].service@ == service@,
        !r.1 ==> forall|j: int| r.0 <= j < entries@.len() ==> bytes_lt(encode_utf8(service@), key_of(#[trigger] entries@[j]@)),
{
    let ghost s = views(entries@);
    let ghost k = encode_utf8(service@);
    let key = service.as_bytes();
    let mut i: usize = 0;
    while i < entries.len()
        invariant
            i <= entries@.len(),
            s == views(entries@),
            sorted_by_service(s),
            key@ == k,
            k == encode_utf8(service@),
            forall|m: int| 0 <= m < i ==> bytes_lt(key_of(#[trigger] entries@[m]@), k),
        decreases entries@.len() - i,
    {
        let sb = entries[i].service.as_str().as_bytes();
        let c = compare_bytes(sb, key);
        assert(s[i as int] == entries@[i as int]@);
        assert(sb@ == key_of(entries@[i as int]@));
        if !matches!(c, Ordering::Less) {
            proof {
                assert forall|j: int| i <= j < entries@.len() implies !bytes_lt(
                    key_of(#[trigger] entries@[j]@),
                    k,
                ) by {
                    assert(s[j] == entries@[j]@);
                    if j > i && bytes_lt(key_of(entries@[j]@), k) {
                        lemma_bytes_lt_transitive(key_of(s[i as int]), key_of(s[j]), k);
                    }
                }
                if c == Ordering::Equal {
                    lemma_key_injective(entries@[i as int].service@, service@);
                    assert(s[i as int].service == service@);
                } else {
                    assert forall|j: int| i <= j < entries@.len() implies bytes_lt(
                        k,
                        key_of(#[trigger] entries@[j]@),
                    ) by {
                        assert(s[j] == entries@[j]@);
                        if j > i {
                            lemma_bytes_lt_transitive(k, key_of(s[i as int]), key_of(s[j]));
                        }
                    }
                    assert forall|j: int| 0 <= j < s.len() implies s[j].service != service@ by {
                        assert(s[j] == entries@[j]@);
                        if j < i {
                            lemma_bytes_lt_irreflexive(k);
                        } else {
                            lemma_bytes_lt_irreflexive(k);
                        }
                    }
                }
            }
            return (i, matches!(c, Ordering::Equal));
        }
        i += 1;
    }
    proof {
        assert forall|j: int| 0 <= j < s.len() implies s[j].service != service@ by {
            assert(s[j] == entries@[j]@);
            lemma_bytes_lt_irreflexive(k);
        }
    }
    (i, false)
}

} // verus!
