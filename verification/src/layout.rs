//! Where the records of the store lie under the data directory: the counter in
//! `superblock`, the attribute record of inode `n` in `inodes/n`, and its
//! content in `contents/n`.

use vstd::prelude::*;
use vstd::utf8::encode_utf8;
use crate::codec::append_bytes;
use crate::names::name_to_vec;
use crate::seed::SEPARATOR;
use crate::store::S3FS;

verus! {

/// The decimal digits of `n`, most significant first, as ASCII.
pub open spec fn decimal_digits(n: nat) -> Seq<u8>
    decreases n,
{
    if n < 10 {
        seq![(48 + n) as u8]
    } else {
        decimal_digits(n / 10).push((48 + n % 10) as u8)
    }
}

/// `name` below the directory `base`: behind a separator, unless `base` ends
/// in one or is empty.
pub open spec fn joined(base: Seq<u8>, name: Seq<u8>) -> Seq<u8> {
    if base.len() == 0 {
        name
    } else if base.last() == SEPARATOR {
        base + name
    } else {
        base + seq![SEPARATOR] + name
    }
}

/// The name of the file that holds the counter: `superblock`.
pub open spec fn superblock_name() -> Seq<u8> {
    seq![115u8, 117, 112, 101, 114, 98, 108, 111, 99, 107]
}

/// The name of the directory of attribute records: `inodes`.
pub open spec fn inodes_name() -> Seq<u8> {
    seq![105u8, 110, 111, 100, 101, 115]
}

/// The name of the directory of contents: `contents`.
pub open spec fn contents_name() -> Seq<u8> {
    seq![99u8, 111, 110, 116, 101, 110, 116, 115]
}

/// Writes `n` in decimal.
pub fn decimal(n: u64) -> (digits: Vec<u8>)
    ensures
        digits@ == decimal_digits(n as nat),
    decreases n,
{
    if n < 10 {
        let mut digits: Vec<u8> = Vec::new();
        digits.push(48 + n as u8);
        assert(digits@ =~= decimal_digits(n as nat));
        digits
    } else {
        let mut digits = decimal(n / 10);
        digits.push(48 + (n % 10) as u8);
        digits
    }
}

/// The byte is a decimal digit.
pub open spec fn is_digit(b: u8) -> bool {
    48 <= b <= 57
}

/// The number that a run of decimal digits writes.
pub open spec fn decimal_value(s: Seq<u8>) -> nat
    decreases s.len(),
{
    if s.len() == 0 {
        0
    } else {
        decimal_value(s.drop_last()) * 10 + if s.last() >= 48 {
            (s.last() - 48) as nat
        } else {
            0
        }
    }
}

/// A run of digits is the way a number is written: it is not empty and does
/// not start with a zero unless it is the single digit zero.
pub open spec fn is_decimal(s: Seq<u8>) -> bool {
    &&& s.len() >= 1
    &&& forall|i: int| 0 <= i < s.len() ==> is_digit(#[trigger] s[i])
    &&& s.len() == 1 || s[0] != 48
}

/// What is written for a number is a run of digits that writes that number.
pub proof fn lemma_decimal_digits(n: nat)
    ensures
        is_decimal(decimal_digits(n)),
        decimal_value(decimal_digits(n)) == n,
        decimal_digits(n)[0] == 48 ==> n == 0,
    decreases n,
{
    if n >= 10 {
        lemma_decimal_digits(n / 10);
        let head = decimal_digits(n / 10);
        let all = decimal_digits(n);
        assert(all.drop_last() =~= head);
        assert(all[0] == head[0]);
        assert(all.last() == 48 + n % 10);
        assert(decimal_value(all) == decimal_value(head) * 10 + n % 10);
        assert forall|i: int| 0 <= i < all.len() implies is_digit(#[trigger] all[i]) by {
            if i < head.len() {
                assert(all[i] == head[i]);
            }
        }
    } else {
        let all = decimal_digits(n);
        assert(all.drop_last() =~= Seq::<u8>::empty());
        assert(decimal_value(all.drop_last()) == 0);
        assert(all.last() == 48 + n);
    }
}

/// A run of digits that is the way a number is written is what is written for
/// the number that it writes.
pub proof fn lemma_decimal_canonical(s: Seq<u8>)
    requires
        is_decimal(s),
    ensures
        decimal_digits(decimal_value(s)) == s,
        s[0] != 48 ==> decimal_value(s) >= 1,
    decreases s.len(),
{
    if s.len() == 1 {
        assert(s.drop_last() =~= Seq::<u8>::empty());
        assert(decimal_value(s.drop_last()) == 0);
        assert(decimal_digits(decimal_value(s)) =~= s);
    } else {
        let head = s.drop_last();
        assert(head[0] == s[0]);
        assert forall|i: int| 0 <= i < head.len() implies is_digit(#[trigger] head[i]) by {
            assert(head[i] == s[i]);
        }
        lemma_decimal_canonical(head);
        let v = decimal_value(s);
        assert(v == decimal_value(head) * 10 + (s.last() - 48));
        assert(v / 10 == decimal_value(head) && v % 10 == s.last() - 48);
        assert(decimal_digits(v) =~= s);
    }
}

/// A run of digits writes no less than any run that it starts with.
pub proof fn lemma_decimal_value_grows(s: Seq<u8>, k: int)
    requires
        0 <= k <= s.len(),
    ensures
        decimal_value(s.take(k)) <= decimal_value(s),
    decreases s.len() - k,
{
    if k < s.len() {
        lemma_decimal_value_grows(s, k + 1);
        assert(s.take(k + 1).drop_last() =~= s.take(k));
    } else {
        assert(s.take(k) =~= s);
    }
}

/// Reads a number written in decimal; `None` unless the bytes are exactly
/// what `decimal` writes for a number.
pub fn parse_decimal(bytes: &[u8]) -> (number: Option<u64>)
    ensures
        match number {
            Some(n) => bytes@ == decimal_digits(n as nat),
            None => forall|n: u64| decimal_digits(n as nat) != bytes@,
        },
{
    let len = bytes.len();
    proof {
        assert forall|n: u64| decimal_digits(n as nat) == bytes@ implies is_decimal(bytes@)
            && decimal_value(bytes@) == n by {
            lemma_decimal_digits(n as nat);
        }
    }
    if len == 0 || (len > 1 && bytes[0] == 48) {
        return None;
    }
    let mut value: u64 = 0;
    let mut i: usize = 0;
    while i < len
        invariant
            i <= len,
            len == bytes@.len(),
            len >= 1,
            len == 1 || bytes@[0] != 48,
            value == decimal_value(bytes@.take(i as int)),
            forall|j: int| 0 <= j < i ==> is_digit(#[trigger] bytes@[j]),
            forall|n: u64|
                decimal_digits(n as nat) == bytes@ ==> is_decimal(bytes@) && decimal_value(bytes@)
                    == n,
        decreases len - i,
    {
        let b = bytes[i];
        if b < 48 || b > 57 {
            assert(!is_digit(bytes@[i as int]));
            return None;
        }
        let digit = (b - 48) as u64;
        proof {
            assert(bytes@.take(i + 1).drop_last() =~= bytes@.take(i as int));
            assert(decimal_value(bytes@.take(i + 1)) == value * 10 + digit);
            lemma_decimal_value_grows(bytes@, i + 1);
        }
        if value > (u64::MAX - digit) / 10 {
            return None;
        }
        value = value * 10 + digit;
        i += 1;
    }
    proof {
        assert(bytes@.take(len as int) =~= bytes@);
        lemma_decimal_canonical(bytes@);
    }
    Some(value)
}

/// Puts `name` below `base`.
pub fn join(base: &[u8], name: &[u8]) -> (path: Vec<u8>)
    ensures
        path@ == joined(base@, name@),
{
    let mut path = name_to_vec(base);
    if base.len() > 0 && base[base.len() - 1] != SEPARATOR {
        path.push(SEPARATOR);
    }
    append_bytes(&mut path, name);
    assert(path@ =~= joined(base@, name@));
    path
}

impl S3FS {
    /// The path of the file that holds the counter.
    pub fn superblock_path(&self) -> (path: Vec<u8>)
        ensures
            path@ == joined(encode_utf8(self@.data_dir), superblock_name()),
    {
        let name: [u8; 10] = [115, 117, 112, 101, 114, 98, 108, 111, 99, 107];
        assert(name@ =~= superblock_name());
        join(self.data_dir().as_str().as_bytes(), name.as_slice())
    }

    /// The path of the directory that holds the attribute records.
    pub fn inodes_dir(&self) -> (path: Vec<u8>)
        ensures
            path@ == joined(encode_utf8(self@.data_dir), inodes_name()),
    {
        let name: [u8; 6] = [105, 110, 111, 100, 101, 115];
        assert(name@ =~= inodes_name());
        join(self.data_dir().as_str().as_bytes(), name.as_slice())
    }

    /// The path of the directory that holds the contents.
    pub fn contents_dir(&self) -> (path: Vec<u8>)
        ensures
            path@ == joined(encode_utf8(self@.data_dir), contents_name()),
    {
        let name: [u8; 8] = [99, 111, 110, 116, 101, 110, 116, 115];
        assert(name@ =~= contents_name());
        join(self.data_dir().as_str().as_bytes(), name.as_slice())
    }

    /// The path of the file that holds the attribute record of `inode`.
    pub fn inode_path(&self, inode: u64) -> (path: Vec<u8>)
        ensures
            path@ == joined(
                joined(encode_utf8(self@.data_dir), inodes_name()),
                decimal_digits(inode as nat),
            ),
    {
        join(self.inodes_dir().as_slice(), decimal(inode).as_slice())
    }

    /// The path of the file that holds the content of `inode`.
    pub fn content_path(&self, inode: u64) -> (path: Vec<u8>)
        ensures
            path@ == joined(
                joined(encode_utf8(self@.data_dir), contents_name()),
                decimal_digits(inode as nat),
            ),
    {
        join(self.contents_dir().as_slice(), decimal(inode).as_slice())
    }
}

} // verus!
