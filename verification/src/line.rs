//! Lines that end with carriage return and line feed.

use vstd::prelude::*;
use crate::result::SshErrorKind;

verus! {

/// Carriage return.
pub const CR: u8 = 13;

/// Line feed.
pub const LF: u8 = 10;

/// The longest line, delimiter included, that is accepted.
pub const MAX_LINE_LEN: usize = 8192;

/// A carriage return stands at index `i` of `s`, and a line feed right after it.
pub open spec fn crlf_at(s: Seq<u8>, i: int) -> bool {
    0 <= i && i + 1 < s.len() && s[i] == CR && s[i + 1] == LF
}

/// No delimiter starts at an index below `n`.
pub open spec fn no_crlf_before(s: Seq<u8>, n: int) -> bool {
    forall|j: int| 0 <= j < n ==> !crlf_at(s, j)
}

/// The first delimiter of `s` starts at index `i`.
pub open spec fn first_crlf_at(s: Seq<u8>, i: int) -> bool {
    crlf_at(s, i) && no_crlf_before(s, i)
}

/// What reading one line from the front of the stream `s` gives.
///
/// If the first delimiter ends within the first `MAX_LINE_LEN` bytes, the line
/// is everything up to and including it. Otherwise the stream either holds
/// `MAX_LINE_LEN` bytes or more, which breaks the protocol, or it ends before
/// any delimiter.
pub open spec fn next_line(s: Seq<u8>) -> Result<Seq<u8>, SshErrorKind> {
    if exists|i: int| first_crlf_at(s, i) && i + 2 <= MAX_LINE_LEN {
        let i = choose|i: int| first_crlf_at(s, i) && i + 2 <= MAX_LINE_LEN;
        Ok(s.take(i + 2))
    } else if s.len() >= MAX_LINE_LEN {
        Err(SshErrorKind::ProtocolViolation)
    } else {
        Err(SshErrorKind::UnexpectedEndOfStream)
    }
}

/// A sequence has at most one first delimiter.
pub proof fn lemma_first_crlf_unique(s: Seq<u8>, i: int, j: int)
    requires
        first_crlf_at(s, i),
        first_crlf_at(s, j),
    ensures
        i == j,
{
    if i < j {
        assert(!crlf_at(s, i));
    } else if j < i {
        assert(!crlf_at(s, j));
    }
}

/// Where the first delimiter ends within the limit, the line is known.
pub proof fn lemma_next_line_found(s: Seq<u8>, i: int)
    requires
        first_crlf_at(s, i),
        i + 2 <= MAX_LINE_LEN,
    ensures
        next_line(s) == Ok::<Seq<u8>, SshErrorKind>(s.take(i + 2)),
{
    let k = choose|k: int| first_crlf_at(s, k) && k + 2 <= MAX_LINE_LEN;
    lemma_first_crlf_unique(s, i, k);
}

/// A line that was read is a prefix of the stream, no longer than the limit,
/// and ends with its delimiter.
pub proof fn lemma_next_line_shape(s: Seq<u8>)
    requires
        next_line(s) is Ok,
    ensures
        ({
            let line = next_line(s)->Ok_0;
            &&& 2 <= line.len() <= s.len()
            &&& line.len() <= MAX_LINE_LEN
            &&& line == s.take(line.len() as int)
            &&& first_crlf_at(s, line.len() - 2)
            &&& line[line.len() - 2] == CR
            &&& line[line.len() - 1] == LF
        }),
{
    let i = choose|i: int| first_crlf_at(s, i) && i + 2 <= MAX_LINE_LEN;
    assert(crlf_at(s, i));
}

/// A line that was read stays the same line when more bytes follow the stream.
pub proof fn lemma_next_line_stable(s: Seq<u8>, more: Seq<u8>)
    requires
        next_line(s) is Ok,
    ensures
        next_line(s + more) == next_line(s),
{
    lemma_next_line_shape(s);
    let line = next_line(s)->Ok_0;
    let i = line.len() - 2;
    lemma_crlf_in_prefix(s, more, i);
    lemma_crlf_in_prefix(s, more, i + 1);
    assert(crlf_at(s + more, i));
    lemma_next_line_found(s + more, i);
    assert((s + more).take(i + 2) =~= s.take(i + 2));
}

/// Where no delimiter ends within the limit, no line is read: the stream is
/// too long, or too short.
pub proof fn lemma_next_line_missing(s: Seq<u8>, n: int)
    requires
        no_crlf_before(s, n),
        n + 1 >= s.len() || n + 1 >= MAX_LINE_LEN,
    ensures
        next_line(s) == Err::<Seq<u8>, SshErrorKind>(
            if s.len() >= MAX_LINE_LEN {
                SshErrorKind::ProtocolViolation
            } else {
                SshErrorKind::UnexpectedEndOfStream
            },
        ),
{
    assert forall|i: int| !(first_crlf_at(s, i) && i + 2 <= MAX_LINE_LEN) by {
        if first_crlf_at(s, i) && i + 2 <= MAX_LINE_LEN {
            assert(i < n);
            assert(!crlf_at(s, i));
        }
    }
}

/// Bytes that follow do not change where a delimiter stands in what came
/// before them.
pub proof fn lemma_crlf_in_prefix(s: Seq<u8>, rest: Seq<u8>, n: int)
    requires
        n + 1 <= s.len(),
    ensures
        no_crlf_before(s, n) <==> no_crlf_before(s + rest, n),
        forall|i: int| 0 <= i < n ==> (crlf_at(s, i) <==> #[trigger] crlf_at(s + rest, i)),
{
    assert forall|i: int| 0 <= i < n implies (crlf_at(s, i) <==> #[trigger] crlf_at(s + rest, i)) by {
        assert((s + rest)[i] == s[i]);
        assert((s + rest)[i + 1] == s[i + 1]);
    }
    if no_crlf_before(s, n) {
        assert forall|j: int| 0 <= j < n implies !crlf_at(s + rest, j) by {
            assert(!crlf_at(s, j));
        }
    }
    if no_crlf_before(s + rest, n) {
        assert forall|j: int| 0 <= j < n implies !crlf_at(s, j) by {
            assert(!crlf_at(s + rest, j));
        }
    }
}

/// Looks for the first delimiter that starts at an index from `from` up to,
/// but not including, `end`.
pub fn find_crlf(buf: &[u8], from: usize, end: usize) -> (r: Option<usize>)
    ensures
        match r {
            Some(i) => {
                &&& from <= i < end
                &&& crlf_at(buf@, i as int)
                &&& forall|j: int| from <= j < i ==> !crlf_at(buf@, j)
            },
            None => forall|j: int| from <= j < end ==> !crlf_at(buf@, j),
        },
{
    let len: usize = buf.len();
    let mut i: usize = from;
    while i < end && i < len && i + 1 < len
        invariant
            from <= i,
            len == buf@.len(),
            forall|j: int| from <= j < i ==> !crlf_at(buf@, j),
        decreases len - i,
    {
        if buf[i] == CR && buf[i + 1] == LF {
            return Some(i);
        }
        i = i + 1;
    }
    None
}

} // verus!
