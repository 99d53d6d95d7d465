use vstd::prelude::*;
use vstd::string::StringSliceAdditionalSpecFns;

verus! {

/// Index of the first occurrence of `c` in `s`, if any.
pub open spec fn index_of(s: Seq<char>, c: char) -> Option<nat>
    decreases s.len(),
{
    if s.len() == 0 {
        None
    } else if s[0] == c {
        Some(0)
    } else {
        match index_of(s.drop_first(), c) {
            Some(k) => Some(k + 1),
            None => None,
        }
    }
}

/// `i` is the first position of `c` in `s`.
proof fn lemma_index_of_first(s: Seq<char>, c: char, i: int)
    requires
        0 <= i < s.len(),
        s[i] == c,
        forall|j: int| 0 <= j < i ==> s[j] != c,
    ensures
        index_of(s, c) == Some(i as nat),
    decreases s.len(),
{
    if i > 0 {
        let t = s.drop_first();
        assert forall|j: int| 0 <= j < i - 1 implies t[j] != c by {
            assert(t[j] == s[j + 1]);
        }
        lemma_index_of_first(t, c, i - 1);
    }
}

/// `c` does not occur in `s`.
proof fn lemma_index_of_none(s: Seq<char>, c: char)
    requires
        forall|j: int| 0 <= j < s.len() ==> s[j] != c,
    ensures
        index_of(s, c) is None,
    decreases s.len(),
{
    if s.len() > 0 {
        let t = s.drop_first();
        assert forall|j: int| 0 <= j < t.len() implies t[j] != c by {
            assert(t[j] == s[j + 1]);
        }
        lemma_index_of_none(t, c);
    }
}

/// Finds the first occurrence of `c` in `s`, counted in characters.
pub fn find_char(s: &str, c: char) -> (r: Option<usize>)
    ensures
        r matches Some(i) ==> index_of(s@, c) == Some(i as nat),
        r is None ==> index_of(s@, c) is None,
{
    let n = s.unicode_len();
    let mut i: usize = 0;
    while i < n
        invariant
            n == s@.len(),
            i <= n,
            forall|j: int| 0 <= j < i ==> s@[j] != c,
        decreases n - i,
    {
        if s.get_char(i) == c {
            proof {
                lemma_index_of_first(s@, c, i as int);
            }
            return Some(i);
        }
        i = i + 1;
    }
    proof {
        lemma_index_of_none(s@, c);
    }
    None
}

/// Number of positions of `s` that hold `b`.
pub open spec fn occurrences(s: Seq<u8>, b: u8) -> nat
    decreases s.len(),
{
    if s.len() == 0 {
        0
    } else {
        occurrences(s.drop_last(), b) + if s.last() == b {
            1nat
        } else {
            0nat
        }
    }
}

/// Relies on bytecount::count: the number of bytes of the haystack equal to the needle.
#[verifier::external_body]
fn count_byte(haystack: &[u8], needle: u8) -> (r: usize)
    ensures
        r as nat == occurrences(haystack@, needle),
{
    bytecount::count(haystack, needle)
}

/// The 1-based line on which byte `offset` of `bytes` stands: one more than
/// the newlines strictly before it. An offset past the end counts them all.
pub open spec fn line_at(bytes: Seq<u8>, offset: nat) -> nat {
    let end = if offset <= bytes.len() {
        offset
    } else {
        bytes.len()
    };
    occurrences(bytes.subrange(0, end as int), 10u8) + 1
}

/// `line_at`, held to what a `usize` can count.
pub open spec fn line_number(bytes: Seq<u8>, offset: nat) -> nat {
    if line_at(bytes, offset) > usize::MAX {
        usize::MAX as nat
    } else {
        line_at(bytes, offset)
    }
}

/// The 1-based line number of byte `offset` of `contents`.
pub fn line_from_offset(contents: &str, offset: usize) -> (r: usize)
    requires
        offset <= contents.spec_bytes().len(),
    ensures
        r as nat == line_number(contents.spec_bytes(), offset as nat),
        r >= 1,
{
    let bytes = contents.as_bytes();
    let span = &bytes[0..offset];
    let newlines = count_byte(span, 10u8);
    newlines.saturating_add(1)
}

} // verus!
