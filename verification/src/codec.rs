//! The byte format of the persisted records: every integer at its fixed width,
//! little-endian; a text or a name behind its length in 64 bits; a kind as a
//! tag in 32 bits; a table behind the number of its entries.
//!
//! A record decodes exactly when it is the encoding of some value, and then it
//! decodes to that value.

use vstd::prelude::*;
use vstd::bytes::{
    lemma_auto_spec_u16_to_from_le_bytes, lemma_auto_spec_u32_to_from_le_bytes,
    lemma_auto_spec_u64_to_from_le_bytes, spec_u16_from_le_bytes, spec_u16_to_le_bytes,
    spec_u32_from_le_bytes, spec_u32_to_le_bytes, spec_u64_from_le_bytes, spec_u64_to_le_bytes,
    u16_from_le_bytes, u16_to_le_bytes, u32_from_le_bytes, u32_to_le_bytes, u64_from_le_bytes,
    u64_to_le_bytes,
};
use vstd::slice::{slice_subrange, slice_to_vec};
use vstd::utf8::{
    decode_utf8, decode_utf8_encode_utf8, encode_utf8, encode_utf8_decode_utf8,
    encode_utf8_valid_utf8, valid_utf8,
};
use crate::attrs::{AttrsView, InodeAttributes, Timestamp};
use crate::directory::{sorted, DirEntryView, DirectoryDescriptor, FileKind};
use crate::names::name_lt;

verus! {

/// Length of the fixed part of an encoded inode record, up to and with the
/// length of its version tag.
pub const ATTRS_FIXED_LEN: usize = 86;

/// The bits of a signed number, read as an unsigned one.
pub open spec fn i64_bits(x: i64) -> u64 {
    x as u64
}

/// The signed number that has these bits.
pub open spec fn i64_of_bits(x: u64) -> i64 {
    x as i64
}

/// The two readings of 64 bits undo each other.
pub proof fn lemma_i64_bits(x: i64, u: u64)
    ensures
        i64_of_bits(i64_bits(x)) == x,
        i64_bits(i64_of_bits(u)) == u,
{
    assert((x as u64) as i64 == x) by (bit_vector);
    assert((u as i64) as u64 == u) by (bit_vector);
}

/// The tag that stands for a kind.
pub open spec fn kind_tag(kind: FileKind) -> u32 {
    match kind {
        FileKind::File => 0,
        FileKind::Directory => 1,
    }
}

/// The kind that a tag stands for, if it is a tag.
pub open spec fn kind_of_tag(tag: u32) -> Option<FileKind> {
    if tag == 0 {
        Some(FileKind::File)
    } else if tag == 1 {
        Some(FileKind::Directory)
    } else {
        None
    }
}

/// The twelve bytes of a time: seconds, then nanoseconds.
pub open spec fn encode_timestamp(t: Timestamp) -> Seq<u8> {
    spec_u64_to_le_bytes(i64_bits(t.secs)) + spec_u32_to_le_bytes(t.nanos)
}

/// The time in twelve bytes.
pub open spec fn decode_timestamp(b: Seq<u8>) -> Timestamp {
    Timestamp {
        secs: i64_of_bits(spec_u64_from_le_bytes(b.subrange(0, 8))),
        nanos: spec_u32_from_le_bytes(b.subrange(8, 12)),
    }
}

/// The bytes of an inode record.
pub open spec fn spec_encode_attrs(a: AttrsView) -> Seq<u8> {
    spec_u64_to_le_bytes(a.inode) + spec_u64_to_le_bytes(a.open_file_handles)
        + spec_u64_to_le_bytes(a.size) + encode_timestamp(a.last_accessed) + encode_timestamp(
        a.last_modified,
    ) + encode_timestamp(a.last_metadata_changed) + spec_u32_to_le_bytes(kind_tag(a.kind))
        + spec_u16_to_le_bytes(a.mode) + spec_u32_to_le_bytes(a.hardlinks) + spec_u32_to_le_bytes(
        a.uid,
    ) + spec_u32_to_le_bytes(a.gid) + spec_u64_to_le_bytes(
        encode_utf8(a.version_tag).len() as u64,
    ) + encode_utf8(a.version_tag) + spec_u64_to_le_bytes(a.remote_key.len() as u64)
        + a.remote_key
}

/// The inode record that the bytes hold, if they hold one: the fixed part
/// with a kind tag that is one, behind it as many bytes of valid UTF-8 as the
/// first length field says, and behind those the second length field with
/// exactly as many bytes of the key as it says.
pub open spec fn spec_decode_attrs(b: Seq<u8>) -> Option<AttrsView> {
    if b.len() < ATTRS_FIXED_LEN {
        None
    } else {
        let kind = kind_of_tag(spec_u32_from_le_bytes(b.subrange(60, 64)));
        let tag_len = spec_u64_from_le_bytes(b.subrange(78, 86)) as int;
        if kind is None || b.len() < 94 + tag_len {
            None
        } else {
            let tag = b.subrange(86, 86 + tag_len);
            let key_len = spec_u64_from_le_bytes(b.subrange(86 + tag_len, 94 + tag_len));
            let key = b.subrange(94 + tag_len, b.len() as int);
            if key_len != key.len() || !valid_utf8(tag) {
                None
            } else {
                Some(
                    AttrsView {
                        inode: spec_u64_from_le_bytes(b.subrange(0, 8)),
                        open_file_handles: spec_u64_from_le_bytes(b.subrange(8, 16)),
                        size: spec_u64_from_le_bytes(b.subrange(16, 24)),
                        last_accessed: decode_timestamp(b.subrange(24, 36)),
                        last_modified: decode_timestamp(b.subrange(36, 48)),
                        last_metadata_changed: decode_timestamp(b.subrange(48, 60)),
                        kind: kind->0,
                        mode: spec_u16_from_le_bytes(b.subrange(64, 66)),
                        hardlinks: spec_u32_from_le_bytes(b.subrange(66, 70)),
                        uid: spec_u32_from_le_bytes(b.subrange(70, 74)),
                        gid: spec_u32_from_le_bytes(b.subrange(74, 78)),
                        version_tag: decode_utf8(tag),
                        remote_key: key,
                    },
                )
            }
        }
    }
}

/// The version tag and the remote key are short enough for their lengths to
/// be written down.
pub open spec fn tag_fits(a: AttrsView) -> bool {
    &&& encode_utf8(a.version_tag).len() <= u64::MAX
    &&& a.remote_key.len() <= u64::MAX
}

proof fn lemma_timestamp_roundtrip(t: Timestamp)
    ensures
        encode_timestamp(t).len() == 12,
        decode_timestamp(encode_timestamp(t)) == t,
{
    lemma_auto_spec_u64_to_from_le_bytes();
    lemma_auto_spec_u32_to_from_le_bytes();
    lemma_i64_bits(t.secs, 0);
    let b = encode_timestamp(t);
    assert(b.subrange(0, 8) =~= spec_u64_to_le_bytes(i64_bits(t.secs)));
    assert(b.subrange(8, 12) =~= spec_u32_to_le_bytes(t.nanos));
}

proof fn lemma_timestamp_canonical(b: Seq<u8>)
    requires
        b.len() == 12,
    ensures
        encode_timestamp(decode_timestamp(b)) == b,
{
    lemma_auto_spec_u64_to_from_le_bytes();
    lemma_auto_spec_u32_to_from_le_bytes();
    lemma_i64_bits(0, spec_u64_from_le_bytes(b.subrange(0, 8)));
    assert(b =~= b.subrange(0, 8) + b.subrange(8, 12));
}

/// Decoding undoes encoding: an encoded inode record decodes to the value it
/// was made from, negative times and any text of the tag included.
pub proof fn lemma_attrs_roundtrip(a: AttrsView)
    requires
        tag_fits(a),
    ensures
        spec_decode_attrs(spec_encode_attrs(a)) == Some(a),
{
    lemma_auto_spec_u64_to_from_le_bytes();
    lemma_auto_spec_u32_to_from_le_bytes();
    lemma_auto_spec_u16_to_from_le_bytes();
    lemma_timestamp_roundtrip(a.last_accessed);
    lemma_timestamp_roundtrip(a.last_modified);
    lemma_timestamp_roundtrip(a.last_metadata_changed);
    encode_utf8_valid_utf8(a.version_tag);
    encode_utf8_decode_utf8(a.version_tag);
    let b = spec_encode_attrs(a);
    let tag = encode_utf8(a.version_tag);
    let t = tag.len() as int;
    assert(b.len() == 94 + tag.len() + a.remote_key.len());
    assert(b.subrange(0, 8) =~= spec_u64_to_le_bytes(a.inode));
    assert(b.subrange(8, 16) =~= spec_u64_to_le_bytes(a.open_file_handles));
    assert(b.subrange(16, 24) =~= spec_u64_to_le_bytes(a.size));
    assert(b.subrange(24, 36) =~= encode_timestamp(a.last_accessed));
    assert(b.subrange(36, 48) =~= encode_timestamp(a.last_modified));
    assert(b.subrange(48, 60) =~= encode_timestamp(a.last_metadata_changed));
    assert(b.subrange(60, 64) =~= spec_u32_to_le_bytes(kind_tag(a.kind)));
    assert(b.subrange(64, 66) =~= spec_u16_to_le_bytes(a.mode));
    assert(b.subrange(66, 70) =~= spec_u32_to_le_bytes(a.hardlinks));
    assert(b.subrange(70, 74) =~= spec_u32_to_le_bytes(a.uid));
    assert(b.subrange(74, 78) =~= spec_u32_to_le_bytes(a.gid));
    assert(b.subrange(78, 86) =~= spec_u64_to_le_bytes(tag.len() as u64));
    assert(b.subrange(86, 86 + t) =~= tag);
    assert(b.subrange(86 + t, 94 + t) =~= spec_u64_to_le_bytes(a.remote_key.len() as u64));
    assert(b.subrange(94 + t, b.len() as int) =~= a.remote_key);
    assert(kind_of_tag(kind_tag(a.kind)) == Some(a.kind));
}

/// Only encodings decode: bytes that decode to a record are the encoding of
/// that record.
pub proof fn lemma_attrs_canonical(b: Seq<u8>)
    requires
        spec_decode_attrs(b) is Some,
    ensures
        spec_encode_attrs(spec_decode_attrs(b)->0) == b,
        tag_fits(spec_decode_attrs(b)->0),
{
    lemma_auto_spec_u64_to_from_le_bytes();
    lemma_auto_spec_u32_to_from_le_bytes();
    lemma_auto_spec_u16_to_from_le_bytes();
    lemma_timestamp_canonical(b.subrange(24, 36));
    lemma_timestamp_canonical(b.subrange(36, 48));
    lemma_timestamp_canonical(b.subrange(48, 60));
    let a = spec_decode_attrs(b)->0;
    let t = spec_u64_from_le_bytes(b.subrange(78, 86)) as int;
    let tag = b.subrange(86, 86 + t);
    let key = b.subrange(94 + t, b.len() as int);
    decode_utf8_encode_utf8(tag);
    let tag_word = spec_u32_from_le_bytes(b.subrange(60, 64));
    assert(kind_tag(a.kind) == tag_word);
    assert(b =~= b.subrange(0, 8) + b.subrange(8, 16) + b.subrange(16, 24) + b.subrange(24, 36)
        + b.subrange(36, 48) + b.subrange(48, 60) + b.subrange(60, 64) + b.subrange(64, 66)
        + b.subrange(66, 70) + b.subrange(70, 74) + b.subrange(74, 78) + b.subrange(78, 86) + tag
        + b.subrange(86 + t, 94 + t) + key);
}

/// `String::from_utf8` of std: it accepts the bytes exactly when they are
/// valid UTF-8, and the text then holds the characters that they spell.
#[verifier::external_body]
fn string_from_utf8(bytes: Vec<u8>) -> (text: Option<String>)
    ensures
        text is Some <==> valid_utf8(bytes@),
        text matches Some(s) ==> s@ == decode_utf8(bytes@),
{
    String::from_utf8(bytes).ok()
}

/// Appends `piece` to `out`.
pub fn append_bytes(out: &mut Vec<u8>, piece: &[u8])
    ensures
        final(out)@ == old(out)@ + piece@,
{
    let mut i: usize = 0;
    while i < piece.len()
        invariant
            i <= piece.len(),
            out@ == old(out)@ + piece@.take(i as int),
        decreases piece.len() - i,
    {
        out.push(piece[i]);
        assert(out@ =~= old(out)@ + piece@.take(i + 1));
        i += 1;
    }
    assert(piece@.take(i as int) =~= piece@);
}

fn put_u64(out: &mut Vec<u8>, v: u64)
    ensures
        final(out)@ == old(out)@ + spec_u64_to_le_bytes(v),
{
    let piece = u64_to_le_bytes(v);
    append_bytes(out, piece.as_slice());
}

fn put_u32(out: &mut Vec<u8>, v: u32)
    ensures
        final(out)@ == old(out)@ + spec_u32_to_le_bytes(v),
{
    let piece = u32_to_le_bytes(v);
    append_bytes(out, piece.as_slice());
}

fn put_u16(out: &mut Vec<u8>, v: u16)
    ensures
        final(out)@ == old(out)@ + spec_u16_to_le_bytes(v),
{
    let piece = u16_to_le_bytes(v);
    append_bytes(out, piece.as_slice());
}

fn put_timestamp(out: &mut Vec<u8>, t: Timestamp)
    ensures
        final(out)@ == old(out)@ + encode_timestamp(t),
{
    put_u64(out, #[verifier::truncate] (t.secs as u64));
    put_u32(out, t.nanos);
    assert(out@ =~= old(out)@ + encode_timestamp(t));
}

fn get_u64(bytes: &[u8], at: usize) -> (v: u64)
    requires
        at + 8 <= bytes@.len(),
    ensures
        v == spec_u64_from_le_bytes(bytes@.subrange(at as int, at + 8)),
{
    let _ = bytes.len();
    u64_from_le_bytes(slice_subrange(bytes, at, at + 8))
}

fn get_u32(bytes: &[u8], at: usize) -> (v: u32)
    requires
        at + 4 <= bytes@.len(),
    ensures
        v == spec_u32_from_le_bytes(bytes@.subrange(at as int, at + 4)),
{
    let _ = bytes.len();
    u32_from_le_bytes(slice_subrange(bytes, at, at + 4))
}

fn get_u16(bytes: &[u8], at: usize) -> (v: u16)
    requires
        at + 2 <= bytes@.len(),
    ensures
        v == spec_u16_from_le_bytes(bytes@.subrange(at as int, at + 2)),
{
    let _ = bytes.len();
    u16_from_le_bytes(slice_subrange(bytes, at, at + 2))
}

fn get_timestamp(bytes: &[u8], at: usize) -> (t: Timestamp)
    requires
        at + 12 <= bytes@.len(),
    ensures
        t == decode_timestamp(bytes@.subrange(at as int, at + 12)),
{
    let _ = bytes.len();
    let secs = get_u64(bytes, at);
    let nanos = get_u32(bytes, at + 8);
    let ghost field = bytes@.subrange(at as int, at + 12);
    assert(field.subrange(0, 8) =~= bytes@.subrange(at as int, at + 8));
    assert(field.subrange(8, 12) =~= bytes@.subrange(at + 8, at + 12));
    Timestamp { secs: #[verifier::truncate] (secs as i64), nanos }
}

/// The tag of a kind.
pub fn tag_of_kind(kind: FileKind) -> (tag: u32)
    ensures
        tag == kind_tag(kind),
{
    match kind {
        FileKind::File => 0,
        FileKind::Directory => 1,
    }
}

/// The kind of a tag.
pub fn kind_from_tag(tag: u32) -> (kind: Option<FileKind>)
    ensures
        kind == kind_of_tag(tag),
{
    if tag == 0 {
        Some(FileKind::File)
    } else if tag == 1 {
        Some(FileKind::Directory)
    } else {
        None
    }
}

/// The counter of the inode allocator as it is persisted: eight bytes.
pub fn encode_counter(counter: u64) -> (bytes: Vec<u8>)
    ensures
        bytes@ == spec_u64_to_le_bytes(counter),
{
    u64_to_le_bytes(counter)
}

/// Reads a persisted counter back; `None` unless there are exactly eight
/// bytes.
pub fn decode_counter(bytes: &[u8]) -> (counter: Option<u64>)
    ensures
        counter is Some <==> bytes@.len() == 8,
        counter matches Some(c) ==> c == spec_u64_from_le_bytes(bytes@),
        counter matches Some(c) ==> spec_u64_to_le_bytes(c) == bytes@,
{
    if bytes.len() != 8 {
        return None;
    }
    proof {
        lemma_auto_spec_u64_to_from_le_bytes();
    }
    Some(u64_from_le_bytes(bytes))
}

/// A counter survives being written and read.
pub proof fn lemma_counter_roundtrip(counter: u64)
    ensures
        spec_u64_to_le_bytes(counter).len() == 8,
        spec_u64_from_le_bytes(spec_u64_to_le_bytes(counter)) == counter,
{
    lemma_auto_spec_u64_to_from_le_bytes();
}

/// Encodes an inode record.
pub fn encode_attrs(attrs: &InodeAttributes) -> (bytes: Vec<u8>)
    ensures
        bytes@ == spec_encode_attrs(attrs@),
        tag_fits(attrs@),
{
    let tag = attrs.version_tag.as_str().as_bytes();
    let mut out: Vec<u8> = Vec::new();
    put_u64(&mut out, attrs.inode);
    put_u64(&mut out, attrs.open_file_handles);
    put_u64(&mut out, attrs.size);
    put_timestamp(&mut out, attrs.last_accessed);
    put_timestamp(&mut out, attrs.last_modified);
    put_timestamp(&mut out, attrs.last_metadata_changed);
    put_u32(&mut out, tag_of_kind(attrs.kind));
    put_u16(&mut out, attrs.mode);
    put_u32(&mut out, attrs.hardlinks);
    put_u32(&mut out, attrs.uid);
    put_u32(&mut out, attrs.gid);
    put_u64(&mut out, tag.len() as u64);
    append_bytes(&mut out, tag);
    put_u64(&mut out, attrs.remote_key.len() as u64);
    append_bytes(&mut out, attrs.remote_key.as_slice());
    assert(out@ =~= spec_encode_attrs(attrs@));
    out
}

/// Decodes an inode record; `None` when the bytes are not the encoding of one.
pub fn decode_attrs(bytes: &[u8]) -> (attrs: Option<InodeAttributes>)
    ensures
        match attrs {
            Some(a) => spec_decode_attrs(bytes@) == Some(a@),
            None => spec_decode_attrs(bytes@) is None,
        },
{
    if bytes.len() < ATTRS_FIXED_LEN {
        return None;
    }
    let kind = match kind_from_tag(get_u32(bytes, 60)) {
        Some(kind) => kind,
        None => {
            return None;
        },
    };
    let len = bytes.len();
    let tag_len = get_u64(bytes, 78);
    if tag_len > (len - 86) as u64 || (len - 86) as u64 - tag_len < 8 {
        return None;
    }
    let t = tag_len as usize;
    let key_len = get_u64(bytes, 86 + t);
    let key_bytes = slice_subrange(bytes, 94 + t, len);
    if key_len != key_bytes.len() as u64 {
        return None;
    }
    let version_tag = match string_from_utf8(slice_to_vec(slice_subrange(bytes, 86, 86 + t))) {
        Some(text) => text,
        None => {
            return None;
        },
    };
    Some(
        InodeAttributes {
            inode: get_u64(bytes, 0),
            open_file_handles: get_u64(bytes, 8),
            size: get_u64(bytes, 16),
            last_accessed: get_timestamp(bytes, 24),
            last_modified: get_timestamp(bytes, 36),
            last_metadata_changed: get_timestamp(bytes, 48),
            kind,
            mode: get_u16(bytes, 64),
            hardlinks: get_u32(bytes, 66),
            uid: get_u32(bytes, 70),
            gid: get_u32(bytes, 74),
            version_tag,
            remote_key: slice_to_vec(key_bytes),
        },
    )
}


/// The bytes of one directory entry: the name behind its length, the inode,
/// the tag of the kind.
pub open spec fn encode_entry(e: DirEntryView) -> Seq<u8> {
    spec_u64_to_le_bytes(e.name.len() as u64) + e.name + spec_u64_to_le_bytes(e.inode)
        + spec_u32_to_le_bytes(kind_tag(e.kind))
}

/// The bytes of the entries, one behind the other.
pub open spec fn encode_entries(s: Seq<DirEntryView>) -> Seq<u8>
    decreases s.len(),
{
    if s.len() == 0 {
        Seq::empty()
    } else {
        encode_entry(s[0]) + encode_entries(s.drop_first())
    }
}

/// The bytes of a directory table: the number of entries, then the entries in
/// their order.
pub open spec fn spec_encode_dir(s: Seq<DirEntryView>) -> Seq<u8> {
    spec_u64_to_le_bytes(s.len() as u64) + encode_entries(s)
}

/// The entry at the front of `b`, with the number of bytes that it takes.
pub open spec fn decode_entry(b: Seq<u8>) -> Option<(DirEntryView, int)> {
    if b.len() < 8 {
        None
    } else {
        let n = spec_u64_from_le_bytes(b.subrange(0, 8)) as int;
        if b.len() < 20 + n {
            None
        } else {
            let kind = kind_of_tag(spec_u32_from_le_bytes(b.subrange(16 + n, 20 + n)));
            if kind is None {
                None
            } else {
                Some(
                    (
                        DirEntryView {
                            name: b.subrange(8, 8 + n),
                            inode: spec_u64_from_le_bytes(b.subrange(8 + n, 16 + n)),
                            kind: kind->0,
                        },
                        20 + n,
                    ),
                )
            }
        }
    }
}

/// The `count` entries that `b` is made of, if it is made of exactly that
/// many.
pub open spec fn decode_entries(b: Seq<u8>, count: nat) -> Option<Seq<DirEntryView>>
    decreases count,
{
    if count == 0 {
        if b.len() == 0 {
            Some(Seq::empty())
        } else {
            None
        }
    } else {
        match decode_entry(b) {
            None => None,
            Some((e, used)) => match decode_entries(b.skip(used), (count - 1) as nat) {
                None => None,
                Some(rest) => Some(seq![e] + rest),
            },
        }
    }
}

/// The directory table that the bytes hold, if they hold one: the count, that
/// many entries and nothing behind them, with names in strictly increasing
/// order.
pub open spec fn spec_decode_dir(b: Seq<u8>) -> Option<Seq<DirEntryView>> {
    if b.len() < 8 {
        None
    } else {
        match decode_entries(b.skip(8), spec_u64_from_le_bytes(b.subrange(0, 8)) as nat) {
            Some(s) => if sorted(s) {
                Some(s)
            } else {
                None
            },
            None => None,
        }
    }
}

/// The table and each of its names are short enough for their lengths to be
/// written down.
pub open spec fn dir_fits(s: Seq<DirEntryView>) -> bool {
    &&& s.len() <= u64::MAX
    &&& forall|i: int| 0 <= i < s.len() ==> (#[trigger] s[i]).name.len() <= u64::MAX
}

spec fn prepend(front: Seq<DirEntryView>, back: Option<Seq<DirEntryView>>) -> Option<
    Seq<DirEntryView>,
> {
    match back {
        Some(rest) => Some(front + rest),
        None => None,
    }
}

proof fn lemma_entry_roundtrip(e: DirEntryView, rest: Seq<u8>)
    requires
        e.name.len() <= u64::MAX,
    ensures
        encode_entry(e).len() == 20 + e.name.len(),
        decode_entry(encode_entry(e) + rest) == Some((e, 20 + e.name.len() as int)),
        (encode_entry(e) + rest).skip(20 + e.name.len() as int) == rest,
{
    lemma_auto_spec_u64_to_from_le_bytes();
    lemma_auto_spec_u32_to_from_le_bytes();
    let b = encode_entry(e) + rest;
    let n = e.name.len() as int;
    assert(b.subrange(0, 8) =~= spec_u64_to_le_bytes(e.name.len() as u64));
    assert(b.subrange(8, 8 + n) =~= e.name);
    assert(b.subrange(8 + n, 16 + n) =~= spec_u64_to_le_bytes(e.inode));
    assert(b.subrange(16 + n, 20 + n) =~= spec_u32_to_le_bytes(kind_tag(e.kind)));
    assert(b.skip(20 + n) =~= rest);
    assert(kind_of_tag(kind_tag(e.kind)) == Some(e.kind));
}

proof fn lemma_entries_roundtrip(s: Seq<DirEntryView>)
    requires
        dir_fits(s),
    ensures
        decode_entries(encode_entries(s), s.len()) == Some(s),
    decreases s.len(),
{
    if s.len() == 0 {
    } else {
        let rest = s.drop_first();
        assert(s[0].name.len() <= u64::MAX);
        assert forall|i: int| 0 <= i < rest.len() implies (#[trigger] rest[i]).name.len()
            <= u64::MAX by {
            assert(rest[i] == s[i + 1]);
        }
        lemma_entry_roundtrip(s[0], encode_entries(rest));
        lemma_entries_roundtrip(rest);
        assert(seq![s[0]] + rest =~= s);
    }
}

/// Decoding undoes encoding: an encoded directory table decodes to the table
/// it was made from, whatever bytes its names hold.
pub proof fn lemma_dir_roundtrip(s: Seq<DirEntryView>)
    requires
        sorted(s),
        dir_fits(s),
    ensures
        spec_decode_dir(spec_encode_dir(s)) == Some(s),
{
    lemma_auto_spec_u64_to_from_le_bytes();
    lemma_entries_roundtrip(s);
    let b = spec_encode_dir(s);
    assert(b.subrange(0, 8) =~= spec_u64_to_le_bytes(s.len() as u64));
    assert(b.skip(8) =~= encode_entries(s));
}

proof fn lemma_entries_canonical(b: Seq<u8>, count: nat)
    requires
        decode_entries(b, count) is Some,
    ensures
        encode_entries(decode_entries(b, count)->0) == b,
        decode_entries(b, count)->0.len() == count,
        forall|i: int|
            0 <= i < count ==> (#[trigger] decode_entries(b, count)->0[i]).name.len() <= u64::MAX,
    decreases count,
{
    let s = decode_entries(b, count)->0;
    if count == 0 {
        assert(b =~= Seq::<u8>::empty());
    } else {
        lemma_auto_spec_u64_to_from_le_bytes();
        lemma_auto_spec_u32_to_from_le_bytes();
        let (e, used) = decode_entry(b)->0;
        let rest = decode_entries(b.skip(used), (count - 1) as nat)->0;
        lemma_entries_canonical(b.skip(used), (count - 1) as nat);
        let n = spec_u64_from_le_bytes(b.subrange(0, 8)) as int;
        assert(s == seq![e] + rest);
        assert(s[0] == e);
        assert(s.drop_first() =~= rest);
        assert(kind_tag(e.kind) == spec_u32_from_le_bytes(b.subrange(16 + n, 20 + n)));
        assert(encode_entry(e) =~= b.subrange(0, 8) + b.subrange(8, 8 + n) + b.subrange(
            8 + n,
            16 + n,
        ) + b.subrange(16 + n, 20 + n));
        assert(encode_entry(e) =~= b.subrange(0, used));
        assert(b =~= b.subrange(0, used) + b.skip(used));
        assert forall|i: int| 0 <= i < count implies (#[trigger] s[i]).name.len() <= u64::MAX by {
            if i > 0 {
                assert(s[i] == rest[i - 1]);
            }
        }
    }
}

/// Only encodings decode: bytes that decode to a directory table are the
/// encoding of that table.
pub proof fn lemma_dir_canonical(b: Seq<u8>)
    requires
        spec_decode_dir(b) is Some,
    ensures
        spec_encode_dir(spec_decode_dir(b)->0) == b,
        sorted(spec_decode_dir(b)->0),
        dir_fits(spec_decode_dir(b)->0),
{
    lemma_auto_spec_u64_to_from_le_bytes();
    let count = spec_u64_from_le_bytes(b.subrange(0, 8));
    lemma_entries_canonical(b.skip(8), count as nat);
    assert(b =~= b.subrange(0, 8) + b.skip(8));
}

proof fn lemma_encode_entries_push(s: Seq<DirEntryView>, e: DirEntryView)
    ensures
        encode_entries(s.push(e)) == encode_entries(s) + encode_entry(e),
    decreases s.len(),
{
    if s.len() == 0 {
        assert(s.push(e)[0] == e);
        assert(s.push(e).drop_first() =~= Seq::<DirEntryView>::empty());
        assert(encode_entries(s.push(e).drop_first()) =~= Seq::<u8>::empty());
        assert(encode_entries(s.push(e)) =~= encode_entry(e));
        assert(encode_entries(s) + encode_entry(e) =~= encode_entry(e));
    } else {
        lemma_encode_entries_push(s.drop_first(), e);
        assert(s.push(e).drop_first() =~= s.drop_first().push(e));
        assert(encode_entries(s.push(e)) =~= encode_entries(s) + encode_entry(e));
    }
}

/// Encodes a directory table.
pub fn encode_dir(dir: &DirectoryDescriptor) -> (bytes: Vec<u8>)
    ensures
        bytes@ == spec_encode_dir(dir@),
        sorted(dir@),
        dir_fits(dir@),
{
    let n = dir.len();
    let mut out: Vec<u8> = Vec::new();
    put_u64(&mut out, n as u64);
    let mut i: usize = 0;
    assert(dir@.take(0) =~= Seq::<DirEntryView>::empty());
    while i < n
        invariant
            i <= n,
            n == dir@.len(),
            out@ == spec_u64_to_le_bytes(n as u64) + encode_entries(dir@.take(i as int)),
            forall|j: int| 0 <= j < i ==> (#[trigger] dir@[j]).name.len() <= u64::MAX,
        decreases n - i,
    {
        let e = dir.entry(i);
        let ghost before = out@;
        put_u64(&mut out, e.name.len() as u64);
        append_bytes(&mut out, e.name.as_slice());
        put_u64(&mut out, e.inode);
        put_u32(&mut out, tag_of_kind(e.kind));
        proof {
            lemma_encode_entries_push(dir@.take(i as int), dir@[i as int]);
            assert(dir@.take(i as int).push(dir@[i as int]) =~= dir@.take(i + 1));
            assert(out@ =~= before + encode_entry(e@));
        }
        i += 1;
    }
    assert(dir@.take(n as int) =~= dir@);
    out
}

/// Decodes a directory table; `None` when the bytes are not the encoding of
/// one.
pub fn decode_dir(bytes: &[u8]) -> (dir: Option<DirectoryDescriptor>)
    ensures
        match dir {
            Some(d) => spec_decode_dir(bytes@) == Some(d@),
            None => spec_decode_dir(bytes@) is None,
        },
{
    let len = bytes.len();
    if len < 8 {
        return None;
    }
    let count = get_u64(bytes, 0);
    let mut dir = DirectoryDescriptor::new();
    let mut pos: usize = 8;
    let mut i: u64 = 0;
    let ghost total = decode_entries(bytes@.skip(8), count as nat);
    assert(Seq::<DirEntryView>::empty() + decode_entries(bytes@.skip(8), count as nat)->0
        =~= decode_entries(bytes@.skip(8), count as nat)->0);
    while i < count
        invariant
            8 <= pos <= len,
            len == bytes@.len(),
            i <= count,
            dir@.len() == i,
            total == prepend(dir@, decode_entries(bytes@.skip(pos as int), (count - i) as nat)),
            total == decode_entries(bytes@.skip(8), count as nat),
            count == spec_u64_from_le_bytes(bytes@.subrange(0, 8)),
        decreases count - i,
    {
        let ghost rest = bytes@.skip(pos as int);
        assert(rest.len() == len - pos);
        if len - pos < 8 {
            assert(decode_entry(rest) is None);
            assert(decode_entries(rest, (count - i) as nat) is None);
            return None;
        }
        let name_len = get_u64(bytes, pos);
        assert(rest.subrange(0, 8) =~= bytes@.subrange(pos as int, pos + 8));
        if name_len > (len - pos - 8) as u64 || (len - pos - 8) as u64 - name_len < 12 {
            assert(decode_entry(rest) is None);
            assert(decode_entries(rest, (count - i) as nat) is None);
            return None;
        }
        let n = name_len as usize;
        let name = slice_to_vec(slice_subrange(bytes, pos + 8, pos + 8 + n));
        let inode = get_u64(bytes, pos + 8 + n);
        let tag = get_u32(bytes, pos + 16 + n);
        assert(rest.subrange(8, 8 + n) =~= bytes@.subrange(pos + 8, pos + 8 + n));
        assert(rest.subrange(8 + n, 16 + n) =~= bytes@.subrange(pos + 8 + n, pos + 16 + n));
        assert(rest.subrange(16 + n, 20 + n) =~= bytes@.subrange(pos + 16 + n, pos + 20 + n));
        let kind = match kind_from_tag(tag) {
            Some(kind) => kind,
            None => {
                assert(decode_entry(rest) is None);
                assert(decode_entries(rest, (count - i) as nat) is None);
                return None;
            },
        };
        let ghost e = DirEntryView { name: name@, inode, kind };
        let ghost before = dir@;
        assert(decode_entry(rest) == Some((e, 20 + n)));
        assert(rest.skip(20 + n) =~= bytes@.skip(pos + 20 + n));
        let ghost tail = decode_entries(bytes@.skip(pos + 20 + n), (count - i - 1) as nat);
        assert(decode_entries(rest, (count - i) as nat) == match tail {
            None => None::<Seq<DirEntryView>>,
            Some(r) => Some(seq![e] + r),
        });
        let appended = dir.push_last(name, inode, kind);
        if !appended {
            proof {
                if tail is Some {
                    let s = before + (seq![e] + tail->0);
                    assert(total == Some(s));
                    assert(s[i - 1] == before.last());
                    assert(s[i as int] == e);
                    assert(!name_lt(s[i - 1].name, s[i as int].name));
                    assert(!sorted(s));
                }
            }
            return None;
        }
        proof {
            if tail is Some {
                assert(before.push(e) + tail->0 =~= before + (seq![e] + tail->0));
            }
        }
        pos = pos + 20 + n;
        i += 1;
    }
    if pos != len {
        return None;
    }
    let _ = dir.len();
    assert(dir@ + Seq::<DirEntryView>::empty() =~= dir@);
    Some(dir)
}

} // verus!
