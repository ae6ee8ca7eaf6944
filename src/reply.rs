//! Decoding the reply: the remote exit status, the captured output streams,
//! and the new contents of the shipped files, strictly by line position.
use vstd::prelude::*;
use crate::codec::{base64_decoded, decode_base64};
use crate::lines::{lines_of, parse_status, split_lines, status_of};

verus! {

/// Why a reply could not be decoded.
#[derive(Clone, Copy, Debug, PartialEq, Eq, Structural)]
pub enum ProtocolError {
    /// The reply has fewer lines than the status, the two streams and one
    /// line per shipped file.
    MissingLines,
    /// The first line is not a signed 32-bit decimal number.
    BadStatus,
    /// The second line is not valid base64.
    BadStdout,
    /// The third line is not valid base64.
    BadStderr,
    /// A file line is not valid base64.
    BadContent,
    /// A file line has no shipped file to go to.
    ExtraLine,
}

/// The first three lines of a reply, decoded.
pub struct Header {
    pub status: i32,
    pub stdout: Vec<u8>,
    pub stderr: Vec<u8>,
}

/// A decoded reply. `writes` holds the new contents of the first
/// `writes.len()` shipped files, in order: they are written back whatever
/// `outcome` says, since decoding stops only at the first bad line.
pub struct Reply {
    pub writes: Vec<Vec<u8>>,
    pub outcome: Result<Header, ProtocolError>,
}

/// Whether the first three lines are all present and well formed.
pub open spec fn header_ok(ls: Seq<Seq<u8>>) -> bool {
    &&& ls.len() >= 3
    &&& status_of(ls[0]) is Some
    &&& base64_decoded(ls[1]) is Some
    &&& base64_decoded(ls[2]) is Some
}

/// Whether line `3 + t` is present, has a shipped file (of `k`) to go to,
/// and is valid base64.
pub open spec fn content_ok(ls: Seq<Seq<u8>>, k: nat, t: nat) -> bool {
    &&& t < k
    &&& 3 + t < ls.len()
    &&& base64_decoded(ls[3 + t as int]) is Some
}

/// The number of file lines, from line `3 + t` on, that decode before the
/// first one that does not, plus `t`.
pub open spec fn good_from(ls: Seq<Seq<u8>>, k: nat, t: nat) -> nat
    decreases ls.len() - t,
{
    if content_ok(ls, k, t) {
        good_from(ls, k, t + 1)
    } else {
        t
    }
}

/// The number of shipped files whose new contents decode, in order, before
/// the first bad file line.
pub open spec fn good_files(ls: Seq<Seq<u8>>, k: nat) -> nat {
    good_from(ls, k, 0)
}

/// How decoding the lines `ls` of a reply for `k` shipped files fails, if it
/// does: at the first line that is missing or bad, in line order.
pub open spec fn reply_error(ls: Seq<Seq<u8>>, k: nat) -> Option<ProtocolError> {
    if ls.len() == 0 {
        Some(ProtocolError::MissingLines)
    } else if status_of(ls[0]) is None {
        Some(ProtocolError::BadStatus)
    } else if ls.len() == 1 {
        Some(ProtocolError::MissingLines)
    } else if base64_decoded(ls[1]) is None {
        Some(ProtocolError::BadStdout)
    } else if ls.len() == 2 {
        Some(ProtocolError::MissingLines)
    } else if base64_decoded(ls[2]) is None {
        Some(ProtocolError::BadStderr)
    } else {
        let w = good_files(ls, k);
        if 3 + w < ls.len() {
            if w >= k {
                Some(ProtocolError::ExtraLine)
            } else {
                Some(ProtocolError::BadContent)
            }
        } else if w < k {
            Some(ProtocolError::MissingLines)
        } else {
            None
        }
    }
}

/// The number of files that decoding the lines `ls` writes back.
pub open spec fn written_files(ls: Seq<Seq<u8>>, k: nat) -> nat {
    if header_ok(ls) {
        good_files(ls, k)
    } else {
        0
    }
}

/// Whether `r` is the decoding of a reply with lines `ls` for `k` shipped files.
pub open spec fn decodes_to(r: Reply, ls: Seq<Seq<u8>>, k: nat) -> bool {
    &&& r.writes@.len() == written_files(ls, k)
    &&& forall|t: int|
        0 <= t < r.writes@.len() ==> (#[trigger] r.writes@[t])@ == base64_decoded(ls[3 + t])->0
    &&& (r.outcome is Ok <==> reply_error(ls, k) is None)
    &&& (r.outcome matches Err(e) ==> reply_error(ls, k) == Some(e))
    &&& (r.outcome matches Ok(h) ==> {
        &&& h.status == status_of(ls[0])->0
        &&& h.stdout@ == base64_decoded(ls[1])->0
        &&& h.stderr@ == base64_decoded(ls[2])->0
    })
}

fn fail(e: ProtocolError) -> (r: Reply)
    ensures
        r.writes@.len() == 0,
        r.outcome == Err::<Header, ProtocolError>(e),
{
    Reply { writes: Vec::new(), outcome: Err(e) }
}

/// Decodes the reply `body` to an invocation that shipped `k` files.
pub fn decode_reply(body: &[u8], k: usize) -> (r: Reply)
    requires
        body@.len() <= usize::MAX - 7,
    ensures
        decodes_to(r, lines_of(body@), k as nat),
{
    let ls = split_lines(body);
    let ghost s = lines_of(body@);
    if ls.len() == 0 {
        return fail(ProtocolError::MissingLines);
    }
    let status = match parse_status(ls[0].as_slice()) {
        Some(v) => v,
        None => {
            return fail(ProtocolError::BadStatus);
        },
    };
    if ls.len() == 1 {
        return fail(ProtocolError::MissingLines);
    }
    let stdout = match decode_base64(ls[1].as_slice()) {
        Ok(v) => v,
        Err(_) => {
            return fail(ProtocolError::BadStdout);
        },
    };
    if ls.len() == 2 {
        return fail(ProtocolError::MissingLines);
    }
    let stderr = match decode_base64(ls[2].as_slice()) {
        Ok(v) => v,
        Err(_) => {
            return fail(ProtocolError::BadStderr);
        },
    };
    assert(header_ok(s));
    let mut writes: Vec<Vec<u8>> = Vec::new();
    let mut n: usize = 3;
    while n < ls.len()
        invariant
            3 <= n <= ls@.len(),
            ls@.len() == s.len(),
            forall|i: int| 0 <= i < ls@.len() ==> (#[trigger] ls@[i])@ == s[i],
            forall|i: int| 0 <= i < ls@.len() ==> (#[trigger] ls@[i])@.len() <= body@.len(),
            body@.len() <= usize::MAX - 7,
            header_ok(s),
            s == lines_of(body@),
            status == status_of(s[0])->0,
            stdout@ == base64_decoded(s[1])->0,
            stderr@ == base64_decoded(s[2])->0,
            writes@.len() == n - 3,
            good_files(s, k as nat) == good_from(s, k as nat, (n - 3) as nat),
            forall|t: int|
                0 <= t < writes@.len() ==> (#[trigger] writes@[t])@ == base64_decoded(s[3 + t])->0,
        decreases ls@.len() - n,
    {
        if n - 3 >= k {
            return Reply { writes, outcome: Err(ProtocolError::ExtraLine) };
        }
        match decode_base64(ls[n].as_slice()) {
            Ok(v) => {
                writes.push(v);
            },
            Err(_) => {
                return Reply { writes, outcome: Err(ProtocolError::BadContent) };
            },
        }
        n = n + 1;
    }
    if n - 3 < k {
        return Reply { writes, outcome: Err(ProtocolError::MissingLines) };
    }
    Reply { writes, outcome: Ok(Header { status, stdout, stderr }) }
}

/// The file lines that decode lie within the reply and within the shipped
/// files.
pub proof fn lemma_good_from_bounds(ls: Seq<Seq<u8>>, k: nat, t: nat)
    ensures
        good_from(ls, k, t) >= t,
        good_from(ls, k, t) > t ==> 3 + good_from(ls, k, t) <= ls.len() && good_from(ls, k, t)
            <= k,
    decreases ls.len() - t,
{
    if content_ok(ls, k, t) {
        lemma_good_from_bounds(ls, k, t + 1);
    }
}

/// A reply with fewer lines than the status, the two streams and one line
/// per shipped file fails with a protocol error, and writes back no file
/// whose line is not present.
pub proof fn lemma_short_reply_fails(ls: Seq<Seq<u8>>, k: nat)
    requires
        ls.len() < k + 3,
    ensures
        reply_error(ls, k) is Some,
        written_files(ls, k) == 0 || 3 + written_files(ls, k) <= ls.len(),
{
    lemma_good_from_bounds(ls, k, 0);
}

/// Where no file was shipped, a reply decodes in full only if it has exactly
/// three lines.
pub proof fn lemma_no_files_three_lines(ls: Seq<Seq<u8>>)
    ensures
        reply_error(ls, 0) is None ==> ls.len() == 3,
        written_files(ls, 0) == 0,
{
    assert(good_files(ls, 0) == 0);
}

} // verus!
