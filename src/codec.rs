use core::cmp::Ordering;
use vstd::prelude::*;
use vstd::slice::{slice_subrange, slice_to_vec};
use vstd::utf8::{encode_utf8, valid_utf8, encode_utf8_valid_utf8};

use crate::entry::{
    bytes_lt, compare_bytes, key_of, lemma_key_injective, sorted_by_service, views, Entry,
    EntryView,
};
use crate::errors::VaultError;
use crate::vault_state::{VaultState, VaultStateView};

verus! {

// The byte layout: integers are 8 bytes little-endian, a byte string or a text
// is its length as such an integer followed by its bytes (UTF-8 for text),
// fixed-size arrays are their bytes alone. The entry collection is its count
// followed by one (service, entry) pair per entry, in the collection's order.

/// An unsigned integer as 8 bytes, least significant first.
pub open spec fn enc_u64(v: u64) -> Seq<u8> {
    seq![
        (v & 0xff) as u8,
        ((v >> 8u64) & 0xff) as u8,
        ((v >> 16u64) & 0xff) as u8,
        ((v >> 24u64) & 0xff) as u8,
        ((v >> 32u64) & 0xff) as u8,
        ((v >> 40u64) & 0xff) as u8,
        ((v >> 48u64) & 0xff) as u8,
        ((v >> 56u64) & 0xff) as u8,
    ]
}

/// A signed integer as the 8 bytes of its two's complement.
pub open spec fn enc_i64(v: i64) -> Seq<u8> {
    enc_u64(v as u64)
}

/// A byte string, prefixed by its length.
pub open spec fn enc_bytes(b: Seq<u8>) -> Seq<u8> {
    enc_u64(b.len() as u64) + b
}

/// A text, as its UTF-8 bytes prefixed by their number.
pub open spec fn enc_str(s: Seq<char>) -> Seq<u8> {
    enc_bytes(encode_utf8(s))
}

/// One entry of the collection: its service as the key, then the entry's fields.
#[verifier::opaque]
pub open spec fn enc_entry(e: EntryView) -> Seq<u8> {
    enc_str(e.service) + enc_str(e.service) + enc_str(e.username) + enc_str(e.passwd) + enc_i64(
        e.created_at,
    ) + enc_i64(e.updated_at)
}

/// The entries one after the other.
pub open spec fn enc_entry_list(s: Seq<EntryView>) -> Seq<u8>
    decreases s.len(),
{
    if s.len() == 0 {
        Seq::empty()
    } else {
        enc_entry(s[0]) + enc_entry_list(s.drop_first())
    }
}

/// The encoding of an entry collection.
pub open spec fn encode_entries_spec(s: Seq<EntryView>) -> Seq<u8> {
    enc_u64(s.len() as u64) + enc_entry_list(s)
}

/// The encoding of an envelope.
pub open spec fn encode_envelope_spec(v: VaultStateView) -> Seq<u8> {
    v.salt + v.nonce + enc_bytes(v.cipher)
}

/// `piece` stands in `b` from position `pos` on.
pub open spec fn at(b: Seq<u8>, pos: int, piece: Seq<u8>) -> bool {
    0 <= pos && pos + piece.len() <= b.len() && b.subrange(pos, pos + piece.len()) == piece
}

proof fn lemma_at_concat(b: Seq<u8>, pos: int, x: Seq<u8>, y: Seq<u8>)
    ensures
        at(b, pos, x + y) <==> at(b, pos, x) && at(b, pos + x.len(), y),
{
    if at(b, pos, x) && at(b, pos + x.len(), y) {
        assert(b.subrange(pos, pos + (x + y).len()) =~= b.subrange(pos, pos + x.len()) + b.subrange(
            pos + x.len(),
            pos + x.len() + y.len(),
        ));
    }
    if at(b, pos, x + y) {
        assert((x + y).subrange(0, x.len() as int) =~= x);
        assert((x + y).subrange(x.len() as int, (x + y).len() as int) =~= y);
        assert(b.subrange(pos, pos + x.len()) =~= (x + y).subrange(0, x.len() as int));
        assert(b.subrange(pos + x.len(), pos + x.len() + y.len()) =~= (x + y).subrange(
            x.len() as int,
            (x + y).len() as int,
        ));
    }
}

proof fn lemma_enc_u64_injective(a: u64, b: u64)
    requires
        enc_u64(a) == enc_u64(b),
    ensures
        a == b,
{
    assert(enc_u64(a)[0] == enc_u64(b)[0]);
    assert(enc_u64(a)[1] == enc_u64(b)[1]);
    assert(enc_u64(a)[2] == enc_u64(b)[2]);
    assert(enc_u64(a)[3] == enc_u64(b)[3]);
    assert(enc_u64(a)[4] == enc_u64(b)[4]);
    assert(enc_u64(a)[5] == enc_u64(b)[5]);
    assert(enc_u64(a)[6] == enc_u64(b)[6]);
    assert(enc_u64(a)[7] == enc_u64(b)[7]);
    assert(a == b) by (bit_vector)
        requires
            (a & 0xff) as u8 == (b & 0xff) as u8,
            ((a >> 8u64) & 0xff) as u8 == ((b >> 8u64) & 0xff) as u8,
            ((a >> 16u64) & 0xff) as u8 == ((b >> 16u64) & 0xff) as u8,
            ((a >> 24u64) & 0xff) as u8 == ((b >> 24u64) & 0xff) as u8,
            ((a >> 32u64) & 0xff) as u8 == ((b >> 32u64) & 0xff) as u8,
            ((a >> 40u64) & 0xff) as u8 == ((b >> 40u64) & 0xff) as u8,
            ((a >> 48u64) & 0xff) as u8 == ((b >> 48u64) & 0xff) as u8,
            ((a >> 56u64) & 0xff) as u8 == ((b >> 56u64) & 0xff) as u8,
    ;
}

proof fn lemma_enc_list_push(s: Seq<EntryView>, e: EntryView)
    ensures
        enc_entry_list(s.push(e)) == enc_entry_list(s) + enc_entry(e),
    decreases s.len(),
{
    if s.len() == 0 {
        assert(s.push(e).drop_first() =~= Seq::<EntryView>::empty());
        assert(s.push(e)[0] == e);
        assert(enc_entry_list(s.push(e).drop_first()) == Seq::<u8>::empty());
        assert(enc_entry_list(s) == Seq::<u8>::empty());
        assert(enc_entry_list(s.push(e)) =~= enc_entry_list(s) + enc_entry(e));
    } else {
        lemma_enc_list_push(s.drop_first(), e);
        assert(s.push(e).drop_first() =~= s.drop_first().push(e));
        assert(s.push(e)[0] == s[0]);
        assert(enc_entry_list(s.push(e)) =~= enc_entry(s[0]) + (enc_entry_list(s.drop_first())
            + enc_entry(e)));
    }
}

proof fn lemma_enc_list_len(s: Seq<EntryView>)
    ensures
        enc_entry_list(s).len() >= s.len(),
    decreases s.len(),
{
    if s.len() > 0 {
        reveal(enc_entry);
        lemma_enc_list_len(s.drop_first());
    }
}

proof fn lemma_enc_list_split(s: Seq<EntryView>, k: int)
    requires
        0 <= k <= s.len(),
    ensures
        enc_entry_list(s) == enc_entry_list(s.take(k)) + enc_entry_list(s.skip(k)),
    decreases k,
{
    if k == 0 {
        assert(s.take(0) =~= Seq::<EntryView>::empty());
        assert(s.skip(0) =~= s);
        assert(enc_entry_list(s) =~= Seq::<u8>::empty() + enc_entry_list(s));
    } else {
        lemma_enc_list_split(s, k - 1);
        lemma_enc_list_push(s.take(k - 1), s[k - 1]);
        assert(s.take(k - 1).push(s[k - 1]) =~= s.take(k));
        assert(s.skip(k - 1)[0] == s[k - 1]);
        assert(s.skip(k - 1).drop_first() =~= s.skip(k));
        assert(enc_entry_list(s) =~= enc_entry_list(s.take(k)) + enc_entry_list(s.skip(k)));
    }
}

/// Appends the 8 bytes of `v`, least significant first.
fn put_u64(out: &mut Vec<u8>, v: u64)
    ensures
        final(out)@ == old(out)@ + enc_u64(v),
{
    out.push((v & 0xff) as u8);
    out.push(((v >> 8u64) & 0xff) as u8);
    out.push(((v >> 16u64) & 0xff) as u8);
    out.push(((v >> 24u64) & 0xff) as u8);
    out.push(((v >> 32u64) & 0xff) as u8);
    out.push(((v >> 40u64) & 0xff) as u8);
    out.push(((v >> 48u64) & 0xff) as u8);
    out.push(((v >> 56u64) & 0xff) as u8);
    assert(final(out)@ =~= old(out)@ + enc_u64(v));
}

/// Appends raw bytes.
fn put_raw(out: &mut Vec<u8>, b: &[u8])
    ensures
        final(out)@ == old(out)@ + b@,
{
    let ghost start = out@;
    let mut i: usize = 0;
    while i < b.len()
        invariant
            i <= b@.len(),
            out@ == start + b@.subrange(0, i as int),
        decreases b@.len() - i,
    {
        out.push(b[i]);
        assert(b@.subrange(0, i + 1) =~= b@.subrange(0, i as int).push(b@[i as int]));
        i += 1;
    }
    assert(b@.subrange(0, i as int) =~= b@);
}

/// Appends a byte string with its length.
fn put_bytes(out: &mut Vec<u8>, b: &[u8])
    ensures
        final(out)@ == old(out)@ + enc_bytes(b@),
{
    put_u64(out, b.len() as u64);
    put_raw(out, b);
    assert(final(out)@ =~= old(out)@ + enc_bytes(b@));
}

/// Appends a text with its length.
fn put_str(out: &mut Vec<u8>, s: &String)
    ensures
        final(out)@ == old(out)@ + enc_str(s@),
{
    put_bytes(out, s.as_str().as_bytes());
}

fn put_entry(out: &mut Vec<u8>, e: &Entry)
    ensures
        final(out)@ == old(out)@ + enc_entry(e@),
{
    let ghost start = out@;
    reveal(enc_entry);
    put_str(out, &e.service);
    put_str(out, &e.service);
    put_str(out, &e.username);
    put_str(out, &e.passwd);
    put_u64(out, e.created_at as u64);
    put_u64(out, e.updated_at as u64);
    assert(out@ =~= start + enc_entry(e@));
}

/// Encodes an entry collection.
pub fn encode_entries(entries: &Vec<Entry>) -> (r: Vec<u8>)
    ensures
        r@ == encode_entries_spec(views(entries@)),
{
    let ghost s = views(entries@);
    let mut out: Vec<u8> = Vec::new();
    put_u64(&mut out, entries.len() as u64);
    let mut i: usize = 0;
    while i < entries.len()
        invariant
            i <= entries@.len(),
            s == views(entries@),
            out@ == enc_u64(s.len() as u64) + enc_entry_list(s.take(i as int)),
        decreases entries@.len() - i,
    {
        put_entry(&mut out, &entries[i]);
        proof {
            lemma_enc_list_push(s.take(i as int), s[i as int]);
            assert(s.take(i as int).push(s[i as int]) =~= s.take(i + 1));
        }
        i += 1;
    }
    assert(s.take(i as int) =~= s);
    out
}

/// Encodes an envelope.
pub fn encode_envelope(v: &VaultState) -> (r: Vec<u8>)
    ensures
        r@ == encode_envelope_spec(v@),
{
    let mut out: Vec<u8> = Vec::new();
    put_raw(&mut out, v.salt.as_slice());
    put_raw(&mut out, v.nonce.as_slice());
    put_bytes(&mut out, v.cipher.as_slice());
    assert(out@ =~= encode_envelope_spec(v@));
    out
}

/// Relies on String::from_utf8: it succeeds exactly on valid UTF-8, and the
/// string's bytes are then the given ones.
#[verifier::external_body]
pub(crate) fn string_from_utf8(b: Vec<u8>) -> (r: Option<String>)
    ensures
        r is Some <==> valid_utf8(b@),
        r matches Some(s) ==> encode_utf8(s@) == b@,
{
    String::from_utf8(b).ok()
}

/// Reads 8 bytes at `pos` as an unsigned integer, least significant first.
fn get_u64(b: &[u8], pos: usize) -> (r: Option<u64>)
    requires
        pos <= b@.len(),
    ensures
        r is Some <==> pos + 8 <= b@.len(),
        r matches Some(v) ==> at(b@, pos as int, enc_u64(v)),
{
    if b.len() - pos < 8 {
        return None;
    }
    let b0 = b[pos];
    let b1 = b[pos + 1];
    let b2 = b[pos + 2];
    let b3 = b[pos + 3];
    let b4 = b[pos + 4];
    let b5 = b[pos + 5];
    let b6 = b[pos + 6];
    let b7 = b[pos + 7];
    let v: u64 = (b0 as u64) | ((b1 as u64) << 8u64) | ((b2 as u64) << 16u64) | ((b3 as u64)
        << 24u64) | ((b4 as u64) << 32u64) | ((b5 as u64) << 40u64) | ((b6 as u64) << 48u64) | ((
    b7 as u64) << 56u64);
    assert((v & 0xff) as u8 == b0 && ((v >> 8u64) & 0xff) as u8 == b1 && ((v >> 16u64) & 0xff) as u8
        == b2 && ((v >> 24u64) & 0xff) as u8 == b3 && ((v >> 32u64) & 0xff) as u8 == b4 && ((v
        >> 40u64) & 0xff) as u8 == b5 && ((v >> 48u64) & 0xff) as u8 == b6 && ((v >> 56u64)
        & 0xff) as u8 == b7) by (bit_vector)
        requires
            v == (b0 as u64) | ((b1 as u64) << 8u64) | ((b2 as u64) << 16u64) | ((b3 as u64)
                << 24u64) | ((b4 as u64) << 32u64) | ((b5 as u64) << 40u64) | ((b6 as u64)
                << 48u64) | ((b7 as u64) << 56u64),
    ;
    assert(b@.subrange(pos as int, pos + 8) =~= enc_u64(v));
    Some(v)
}

/// Reads a length-prefixed byte string at `pos`; gives it and the position after it.
fn get_bytes(b: &[u8], pos: usize) -> (r: Option<(Vec<u8>, usize)>)
    requires
        pos <= b@.len(),
    ensures
        r matches Some((v, p)) ==> at(b@, pos as int, enc_bytes(v@)) && p == pos + enc_bytes(
            v@,
        ).len(),
        forall|x: Seq<u8>|
            #[trigger] at(b@, pos as int, enc_bytes(x)) ==> (r matches Some((v, p)) && v@ == x),
{
    let blen = b.len();
    proof {
        assert forall|x: Seq<u8>| #[trigger] at(b@, pos as int, enc_bytes(x)) implies at(
            b@,
            pos as int,
            enc_u64(x.len() as u64),
        ) && at(b@, pos + 8, x) by {
            lemma_at_concat(b@, pos as int, enc_u64(x.len() as u64), x);
        }
    }
    let n = match get_u64(b, pos) {
        Some(n) => n,
        None => return None,
    };
    proof {
        assert forall|x: Seq<u8>| #[trigger] at(b@, pos as int, enc_bytes(x)) implies x.len() == n by {
            assert(b@.subrange(pos as int, pos + 8) == enc_u64(n));
            assert(b@.subrange(pos as int, pos + 8) == enc_u64(x.len() as u64));
            lemma_enc_u64_injective(n, x.len() as u64);
        }
    }
    let start = pos + 8;
    if ((b.len() - start) as u64) < n {
        return None;
    }
    let end = start + n as usize;
    let v = slice_to_vec(slice_subrange(b, start, end));
    proof {
        lemma_at_concat(b@, pos as int, enc_u64(v@.len() as u64), v@);
    }
    Some((v, end))
}

/// Reads a length-prefixed UTF-8 text at `pos`; gives it and the position after it.
fn get_str(b: &[u8], pos: usize) -> (r: Option<(String, usize)>)
    requires
        pos <= b@.len(),
    ensures
        r matches Some((s, p)) ==> at(b@, pos as int, enc_str(s@)) && p == pos + enc_str(
            s@,
        ).len(),
        forall|t: Seq<char>| #[trigger] at(b@, pos as int, enc_str(t)) ==> (r matches Some((s, p)) && s@ == t),
{
    let (v, p) = match get_bytes(b, pos) {
        Some(x) => x,
        None => {
            proof {
                assert forall|t: Seq<char>| !#[trigger] at(b@, pos as int, enc_str(t)) by {
                    if at(b@, pos as int, enc_str(t)) {
                        assert(at(b@, pos as int, enc_bytes(encode_utf8(t))));
                    }
                }
            }
            return None;
        },
    };
    let ghost bytes = v@;
    proof {
        assert forall|t: Seq<char>| #[trigger] at(b@, pos as int, enc_str(t)) implies encode_utf8(t) == bytes by {
            assert(at(b@, pos as int, enc_bytes(encode_utf8(t))));
        }
    }
    match string_from_utf8(v) {
        Some(s) => {
            proof {
                assert forall|t: Seq<char>| #[trigger] at(b@, pos as int, enc_str(t)) implies s@ == t by {
                    assert(encode_utf8(t) == bytes);
                    lemma_key_injective(s@, t);
                }
            }
            Some((s, p))
        },
        None => {
            proof {
                assert forall|t: Seq<char>| !#[trigger] at(b@, pos as int, enc_str(t)) by {
                    if at(b@, pos as int, enc_str(t)) {
                        assert(encode_utf8(t) == bytes);
                        encode_utf8_valid_utf8(t);
                    }
                }
            }
            None
        },
    }
}

proof fn lemma_i64_round_trip(v: i64)
    ensures
        (v as u64) as i64 == v,
{
    assert((v as u64) as i64 == v) by (bit_vector);
}

/// The fields of entry `x` stand one after the other from `pos` on.
spec fn entry_parts_at(bs: Seq<u8>, pos: int, x: EntryView) -> bool {
    let at_service = pos + enc_str(x.service).len();
    let at_username = at_service + enc_str(x.service).len();
    let at_passwd = at_username + enc_str(x.username).len();
    let at_created = at_passwd + enc_str(x.passwd).len();
    let at_updated = at_created + 8;
    &&& at(bs, pos, enc_str(x.service))
    &&& at(bs, at_service, enc_str(x.service))
    &&& at(bs, at_username, enc_str(x.username))
    &&& at(bs, at_passwd, enc_str(x.passwd))
    &&& at(bs, at_created, enc_i64(x.created_at))
    &&& at(bs, at_updated, enc_i64(x.updated_at))
}

proof fn lemma_entry_at(bs: Seq<u8>, pos: int, x: EntryView)
    ensures
        at(bs, pos, enc_entry(x)) <==> entry_parts_at(bs, pos, x),
        enc_entry(x).len() == enc_str(x.service).len() * 2 + enc_str(x.username).len() + enc_str(
            x.passwd,
        ).len() + 16,
{
    reveal(enc_entry);
    let a = enc_str(x.service);
    let c = enc_str(x.username);
    let d = enc_str(x.passwd);
    let f = enc_i64(x.created_at);
    let g = enc_i64(x.updated_at);
    lemma_at_concat(bs, pos, a + a + c + d + f, g);
    lemma_at_concat(bs, pos, a + a + c + d, f);
    lemma_at_concat(bs, pos, a + a + c, d);
    lemma_at_concat(bs, pos, a + a, c);
    lemma_at_concat(bs, pos, a, a);
}

/// Reads one entry at `pos`; gives it and the position after it.
fn get_entry(b: &[u8], pos: usize) -> (r: Option<(Entry, usize)>)
    requires
        pos <= b@.len(),
    ensures
        r matches Some((e, p)) ==> at(b@, pos as int, enc_entry(e@)) && p == pos + enc_entry(
            e@,
        ).len(),
        forall|x: EntryView| #[trigger] at(b@, pos as int, enc_entry(x)) ==> (r matches Some((e, p)) && e@ == x),
{
    let blen = b.len();
    let ghost bs = b@;
    proof {
        assert forall|x: EntryView| #[trigger] at(b@, pos as int, enc_entry(x)) implies entry_parts_at(
            bs,
            pos as int,
            x,
        ) by {
            lemma_entry_at(bs, pos as int, x);
        }
    }
    let (key, at_service) = match get_str(b, pos) {
        Some(x) => x,
        None => return None,
    };
    let (service, at_username) = match get_str(b, at_service) {
        Some(x) => x,
        None => return None,
    };
    let (username, at_passwd) = match get_str(b, at_username) {
        Some(x) => x,
        None => return None,
    };
    let (passwd, at_created) = match get_str(b, at_passwd) {
        Some(x) => x,
        None => return None,
    };
    let created = match get_u64(b, at_created) {
        Some(x) => x,
        None => return None,
    };
    let at_updated = at_created + 8;
    let updated = match get_u64(b, at_updated) {
        Some(x) => x,
        None => return None,
    };
    let end_pos = at_updated + 8;
    proof {
        assert forall|x: EntryView| #[trigger] at(b@, pos as int, enc_entry(x)) implies x.service
            == key@ && x.service == service@ && x.username == username@ && x.passwd == passwd@
            && x.created_at as u64 == created && x.updated_at as u64 == updated by {
            assert(entry_parts_at(bs, pos as int, x));
            assert(at(bs, at_created as int, enc_i64(x.created_at)));
            assert(bs.subrange(at_created as int, at_created + 8) == enc_u64(created));
            lemma_enc_u64_injective(created, x.created_at as u64);
            assert(at(bs, at_updated as int, enc_i64(x.updated_at)));
            assert(bs.subrange(at_updated as int, at_updated + 8) == enc_u64(updated));
            lemma_enc_u64_injective(updated, x.updated_at as u64);
        }
    }
    let same = compare_bytes(key.as_str().as_bytes(), service.as_str().as_bytes());
    if !matches!(same, Ordering::Equal) {
        return None;
    }
    proof {
        lemma_key_injective(key@, service@);
    }
    let e = Entry {
        service,
        username,
        passwd,
        created_at: created as i64,
        updated_at: updated as i64,
    };
    proof {
        let ghost x = e@;
        lemma_i64_round_trip(x.created_at);
        lemma_i64_round_trip(x.updated_at);
        assert(created as i64 as u64 == created) by (bit_vector);
        assert(updated as i64 as u64 == updated) by (bit_vector);
        lemma_entry_at(bs, pos as int, x);
        assert forall|y: EntryView| #[trigger] at(b@, pos as int, enc_entry(y)) implies y == x by {
            lemma_i64_round_trip(y.created_at);
            lemma_i64_round_trip(y.updated_at);
        }
    }
    Some((e, end_pos))
}

/// Decodes an entry collection. It succeeds exactly on the encoding of a
/// collection ordered by service name, and gives back that collection.
pub fn decode_entries(b: &[u8]) -> (r: Result<Vec<Entry>, VaultError>)
    ensures
        r matches Ok(v) ==> sorted_by_service(views(v@)) && encode_entries_spec(views(v@)) == b@,
        r is Err ==> r == Err::<Vec<Entry>, VaultError>(VaultError::Serialization),
        forall|s: Seq<EntryView>|
            sorted_by_service(s) && #[trigger] encode_entries_spec(s) == b@ ==> (r matches Ok(v)
                && views(v@) == s),
{
    let blen = b.len();
    let ghost bs = b@;
    let n = match get_u64(b, 0) {
        Some(n) => n,
        None => {
            proof {
                assert forall|s: Seq<EntryView>|
                    sorted_by_service(s) && #[trigger] encode_entries_spec(s) == bs implies false by {
                    assert(encode_entries_spec(s).len() >= 8);
                }
            }
            return Err(VaultError::Serialization);
        },
    };
    proof {
        assert(views(Seq::<Entry>::empty()) =~= Seq::<EntryView>::empty());
        assert forall|s: Seq<EntryView>| #[trigger] encode_entries_spec(s) == bs implies s.len()
            <= u64::MAX && s.take(0) == Seq::<EntryView>::empty() by {
            lemma_enc_list_len(s);
            assert(s.take(0) =~= Seq::<EntryView>::empty());
        }
        assert forall|s: Seq<EntryView>| #[trigger] encode_entries_spec(s) == bs implies s.len()
            as u64 == n by {
            assert(bs.subrange(0, 8) =~= enc_u64(s.len() as u64));
            lemma_enc_u64_injective(n, s.len() as u64);
        }
    }
    let mut out: Vec<Entry> = Vec::new();
    let mut pos: usize = 8;
    let mut k: u64 = 0;
    while k < n
        invariant
            bs == b@,
            8 <= pos <= bs.len(),
            k <= n,
            out@.len() == k,
            sorted_by_service(views(out@)),
            bs.subrange(0, 8) == enc_u64(n),
            bs.subrange(8, pos as int) == enc_entry_list(views(out@)),
            forall|s: Seq<EntryView>| #[trigger] encode_entries_spec(s) == bs ==> s.len() as u64 == n,
            forall|s: Seq<EntryView>|
                sorted_by_service(s) && #[trigger] encode_entries_spec(s) == bs ==> s.len()
                    <= u64::MAX && views(out@) == s.take(k as int),
        decreases n - k,
    {
        let (e, p) = match get_entry(b, pos) {
            Some(x) => x,
            None => {
                proof {
                    assert forall|s: Seq<EntryView>|
                        sorted_by_service(s) && #[trigger] encode_entries_spec(s) == bs implies false by {
                        lemma_complete_step(bs, s, views(out@), k as int, pos as int);
                    }
                }
                return Err(VaultError::Serialization);
            },
        };
        if out.len() > 0 {
            let last = out.len() - 1;
            let c = compare_bytes(
                out[last].service.as_str().as_bytes(),
                e.service.as_str().as_bytes(),
            );
            if !matches!(c, Ordering::Less) {
                proof {
                    assert forall|s: Seq<EntryView>|
                        sorted_by_service(s) && #[trigger] encode_entries_spec(s) == bs implies false by {
                        lemma_complete_step(bs, s, views(out@), k as int, pos as int);
                        assert(views(out@)[last as int] == s[last as int]);
                        assert(bytes_lt(key_of(s[last as int]), key_of(s[k as int])));
                    }
                }
                return Err(VaultError::Serialization);
            }
        }
        let ghost old_out = views(out@);
        proof {
            assert forall|s: Seq<EntryView>|
                sorted_by_service(s) && #[trigger] encode_entries_spec(s) == bs implies s[k as int]
                == e@ by {
                lemma_complete_step(bs, s, old_out, k as int, pos as int);
            }
            lemma_sorted_push(old_out, e@);
            lemma_enc_list_push(old_out, e@);
            assert(bs.subrange(8, p as int) =~= bs.subrange(8, pos as int) + bs.subrange(
                pos as int,
                p as int,
            ));
        }
        out.push(e);
        proof {
            assert(views(out@) =~= old_out.push(e@));
            assert forall|s: Seq<EntryView>|
                sorted_by_service(s) && #[trigger] encode_entries_spec(s) == bs implies views(out@)
                == s.take(k + 1) by {
                assert(s.take(k + 1) =~= s.take(k as int).push(s[k as int]));
            }
        }
        pos = p;
        k = k + 1;
    }
    if pos != b.len() {
        proof {
            assert forall|s: Seq<EntryView>|
                sorted_by_service(s) && #[trigger] encode_entries_spec(s) == bs implies false by {
                assert(s.take(k as int) =~= s);
                assert(bs =~= bs.subrange(0, 8) + bs.subrange(8, bs.len() as int));
                assert(bs.subrange(0, pos as int) =~= bs.subrange(0, 8) + bs.subrange(8, pos as int));
            }
        }
        return Err(VaultError::Serialization);
    }
    proof {
        assert(bs =~= bs.subrange(0, 8) + bs.subrange(8, pos as int));
        assert forall|s: Seq<EntryView>|
            sorted_by_service(s) && #[trigger] encode_entries_spec(s) == bs implies views(out@) == s by {
            assert(s.take(k as int) =~= s);
        }
    }
    Ok(out)
}

/// Decoding what `encode_entries` produced from a collection ordered by
/// service gives back that collection.
pub proof fn law_entries_round_trip(
    entries: &Vec<Entry>,
    bytes: Vec<u8>,
    bytes_in: &[u8],
    decoded: Result<Vec<Entry>, VaultError>,
)
    requires
        sorted_by_service(views(entries@)),
        call_ensures(encode_entries, (entries,), bytes),
        bytes_in@ == bytes@,
        call_ensures(decode_entries, (bytes_in,), decoded),
    ensures
        decoded matches Ok(v) && views(v@) == views(entries@),
{
}

/// Decoding what `encode_envelope` produced gives back that envelope.
pub proof fn law_envelope_encoding_round_trip(
    envelope: &VaultState,
    bytes: Vec<u8>,
    bytes_in: &[u8],
    decoded: Result<VaultState, VaultError>,
)
    requires
        call_ensures(encode_envelope, (envelope,), bytes),
        bytes_in@ == bytes@,
        call_ensures(decode_envelope, (bytes_in,), decoded),
    ensures
        decoded matches Ok(v) && v@ == envelope@,
{
}

/// Appending an entry ordered after the last keeps a sequence sorted.
proof fn lemma_sorted_push(s: Seq<EntryView>, e: EntryView)
    requires
        sorted_by_service(s),
        s.len() > 0 ==> bytes_lt(key_of(s.last()), key_of(e)),
    ensures
        sorted_by_service(s.push(e)),
{
    assert forall|i: int, j: int| 0 <= i < j < s.push(e).len() implies bytes_lt(
        key_of(s.push(e)[i]),
        key_of(s.push(e)[j]),
    ) by {
        if j == s.len() && i < s.len() - 1 {
            crate::entry::lemma_bytes_lt_transitive(key_of(s[i]), key_of(s.last()), key_of(e));
        }
    }
}

/// Where a collection's encoding is `bs` and the first `k` entries have been
/// read up to `pos`, entry `k` stands at `pos`.
proof fn lemma_complete_step(bs: Seq<u8>, s: Seq<EntryView>, read: Seq<EntryView>, k: int, pos: int)
    requires
        encode_entries_spec(s) == bs,
        0 <= k < s.len(),
        read == s.take(k),
        bs.subrange(8, pos) == enc_entry_list(read),
        8 <= pos <= bs.len(),
    ensures
        at(bs, pos, enc_entry(s[k])),
{
    lemma_enc_list_split(s, k);
    assert(s.skip(k)[0] == s[k]);
    let rest = enc_entry_list(s.skip(k));
    assert(rest == enc_entry(s[k]) + enc_entry_list(s.skip(k).drop_first()));
    let head = enc_u64(s.len() as u64) + enc_entry_list(read);
    assert(bs =~= head + rest);
    assert(bs.subrange(pos, pos + enc_entry(s[k]).len()) =~= enc_entry(s[k]));
}

/// Decodes an envelope. It succeeds exactly on the encoding of an envelope,
/// and gives back that envelope.
pub fn decode_envelope(b: &[u8]) -> (r: Result<VaultState, VaultError>)
    ensures
        r matches Ok(v) ==> encode_envelope_spec(v@) == b@,
        r is Err ==> r == Err::<VaultState, VaultError>(VaultError::Serialization),
        forall|x: VaultStateView|
            x.salt.len() == 16 && x.nonce.len() == 12 && #[trigger] encode_envelope_spec(x) == b@
                ==> (r matches Ok(v) && v@ == x),
{
    let ghost bs = b@;
    if b.len() < 28 {
        return Err(VaultError::Serialization);
    }
    let mut salt = [0u8; 16];
    let mut i: usize = 0;
    while i < 16
        invariant
            i <= 16,
            bs == b@,
            bs.len() >= 28,
            forall|j: int| 0 <= j < i ==> salt@[j] == bs[j],
        decreases 16 - i,
    {
        salt.set(i, b[i]);
        i += 1;
    }
    let mut nonce = [0u8; 12];
    let mut i: usize = 0;
    while i < 12
        invariant
            i <= 12,
            bs == b@,
            bs.len() >= 28,
            forall|j: int| 0 <= j < i ==> nonce@[j] == bs[16 + j],
        decreases 12 - i,
    {
        nonce.set(i, b[16 + i]);
        i += 1;
    }
    assert(salt@ =~= bs.subrange(0, 16));
    assert(nonce@ =~= bs.subrange(16, 28));
    let (cipher, p) = match get_bytes(b, 28) {
        Some(x) => x,
        None => {
            proof {
                assert forall|x: VaultStateView|
                    x.salt.len() == 16 && x.nonce.len() == 12 && #[trigger] encode_envelope_spec(x)
                        == bs implies false by {
                    assert(bs.subrange(28, bs.len() as int) =~= enc_bytes(x.cipher));
                    assert(at(bs, 28, enc_bytes(x.cipher)));
                }
            }
            return Err(VaultError::Serialization);
        },
    };
    if p != b.len() {
        proof {
            assert forall|x: VaultStateView|
                x.salt.len() == 16 && x.nonce.len() == 12 && #[trigger] encode_envelope_spec(x)
                    == bs implies false by {
                assert(bs.subrange(28, bs.len() as int) =~= enc_bytes(x.cipher));
                assert(at(bs, 28, enc_bytes(x.cipher)));
            }
        }
        return Err(VaultError::Serialization);
    }
    let v = VaultState { salt, nonce, cipher };
    proof {
        assert(bs =~= bs.subrange(0, 16) + bs.subrange(16, 28) + bs.subrange(28, p as int));
        assert forall|x: VaultStateView|
            x.salt.len() == 16 && x.nonce.len() == 12 && #[trigger] encode_envelope_spec(x) == bs implies v@
            == x by {
            assert(bs.subrange(28, bs.len() as int) =~= enc_bytes(x.cipher));
            assert(at(bs, 28, enc_bytes(x.cipher)));
            assert(x.salt =~= bs.subrange(0, 16));
            assert(x.nonce =~= bs.subrange(16, 28));
        }
    }
    Ok(v)
}

} // verus!
