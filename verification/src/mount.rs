//! What the mount has to know of the system's FUSE configuration: whether it
//! lets users share a mount with others.

use vstd::prelude::*;
use crate::store::S3FS;

verus! {

/// The option that lets users share a mount: `user_allow_other`.
pub open spec fn allow_other_keyword() -> Seq<u8> {
    seq![117u8, 115, 101, 114, 95, 97, 108, 108, 111, 119, 95, 111, 116, 104, 101, 114]
}

/// The byte that ends a line.
pub const NEWLINE: u8 = 10;

/// Space that may stand before an option on its line: blank, tab, vertical
/// tab, form feed, carriage return.
pub open spec fn is_blank(b: u8) -> bool {
    b == 32 || b == 9 || b == 11 || b == 12 || b == 13
}

/// Where the line that holds place `p` starts.
pub open spec fn line_start(text: Seq<u8>, p: int) -> int
    decreases p,
{
    if p <= 0 || text[p - 1] == NEWLINE {
        p
    } else {
        line_start(text, p - 1)
    }
}

/// The option stands at place `p`, with nothing but space before it on its
/// line.
pub open spec fn allows_other_at(text: Seq<u8>, p: int) -> bool {
    &&& 0 <= p
    &&& p + 16 <= text.len()
    &&& text.subrange(p, p + 16) == allow_other_keyword()
    &&& forall|q: int| line_start(text, p) <= q < p ==> is_blank(#[trigger] text[q])
}

/// Some line of the configuration starts with the option.
pub open spec fn config_allows_other(text: Seq<u8>) -> bool {
    exists|p: int| allows_other_at(text, p)
}

proof fn lemma_line_start(text: Seq<u8>, from: int, p: int)
    requires
        0 <= from <= p <= text.len(),
        from == 0 || text[from - 1] == NEWLINE,
        forall|q: int| from <= q < p ==> text[q] != NEWLINE,
    ensures
        line_start(text, p) == from,
    decreases p - from,
{
    if p > from {
        lemma_line_start(text, from, p - 1);
    }
}

fn is_blank_byte(b: u8) -> (blank: bool)
    ensures
        blank == is_blank(b),
{
    b == 32 || b == 9 || b == 11 || b == 12 || b == 13
}

fn keyword_at(text: &[u8], at: usize) -> (found: bool)
    requires
        at <= text@.len(),
    ensures
        found == (at + 16 <= text@.len() && text@.subrange(at as int, at + 16)
            == allow_other_keyword()),
{
    let len = text.len();
    if len - at < 16 {
        return false;
    }
    let keyword: [u8; 16] = [117, 115, 101, 114, 95, 97, 108, 108, 111, 119, 95, 111, 116, 104, 101, 114];
    assert(keyword@ =~= allow_other_keyword());
    let mut k: usize = 0;
    while k < 16
        invariant
            k <= 16,
            len == text@.len(),
            at + 16 <= text@.len(),
            keyword@ == allow_other_keyword(),
            forall|j: int| 0 <= j < k ==> text@[at + j] == keyword@[j],
        decreases 16 - k,
    {
        if text[at + k] != keyword[k] {
            assert(text@.subrange(at as int, at + 16)[k as int] != allow_other_keyword()[k as int]);
            return false;
        }
        k += 1;
    }
    assert(text@.subrange(at as int, at + 16) =~= allow_other_keyword());
    true
}

impl S3FS {
    /// Tells from the text of the system's FUSE configuration whether users
    /// may let others into their mounts: whether some line starts, after any
    /// space, with `user_allow_other`.
    pub fn fuse_allow_other_enabled(config: &[u8]) -> (enabled: bool)
        ensures
            enabled == config_allows_other(config@),
    {
        let len = config.len();
        let mut start: usize = 0;
        while start < len
            invariant
                start <= len,
                len == config@.len(),
                start < len ==> start == 0 || config@[start - 1] == NEWLINE,
                forall|p: int| 0 <= p < start ==> !allows_other_at(config@, p),
            decreases len - start,
        {
            let mut at: usize = start;
            while at < len && is_blank_byte(config[at])
                invariant
                    start <= at <= len,
                    len == config@.len(),
                    forall|q: int| start <= q < at ==> is_blank(#[trigger] config@[q]),
                decreases len - at,
            {
                at += 1;
            }
            proof {
                lemma_line_start(config@, start as int, at as int);
            }
            if keyword_at(config, at) {
                assert(allows_other_at(config@, at as int));
                return true;
            }
            let mut end: usize = at;
            while end < len && config[end] != NEWLINE
                invariant
                    at <= end <= len,
                    len == config@.len(),
                    forall|q: int| at <= q < end ==> config@[q] != NEWLINE,
                decreases len - end,
            {
                end += 1;
            }
            proof {
                assert forall|p: int| start <= p <= end implies !allows_other_at(config@, p) by {
                    if p < len {
                        lemma_line_start(config@, start as int, p);
                    } else {
                        lemma_line_start(config@, start as int, p);
                    }
                    if allows_other_at(config@, p) {
                        assert(config@.subrange(p, p + 16)[0] == 117);
                        if p < at {
                            assert(is_blank(config@[p]));
                        } else if p > at {
                            assert(is_blank(config@[at as int]));
                        }
                    }
                }
            }
            if end < len {
                start = end + 1;
            } else {
                start = len;
            }
        }
        proof {
            assert forall|p: int| !allows_other_at(config@, p) by {
                if allows_other_at(config@, p) {
                    assert(p + 16 <= len);
                }
            }
        }
        false
    }
}

} // verus!
