//! What a tailer makes of the bytes it read from a growing file: the lines
//! that are complete, and how far the file counts as read. A line is
//! complete when its line feed is there; what follows the last line feed
//! waits for the next reading.

use vstd::prelude::*;
use vstd::utf8::{decode_utf8, valid_utf8};
use crate::models::texts;

verus! {

/// The byte that ends a line.
pub const LINE_FEED: u8 = 10;

/// The byte that may stand before the line feed and is no part of the line.
pub const CARRIAGE_RETURN: u8 = 13;

/// What a reading has found so far: the complete lines, and the bytes of the
/// line that is not complete yet.
pub struct Scan {
    pub lines: Seq<Seq<u8>>,
    pub pending: Seq<u8>,
}

/// The scan after one more byte: a line feed completes the pending line, any
/// other byte prolongs it.
pub open spec fn scan_step(st: Scan, b: u8) -> Scan {
    if b == LINE_FEED {
        Scan { lines: st.lines.push(st.pending), pending: Seq::empty() }
    } else {
        Scan { lines: st.lines, pending: st.pending.push(b) }
    }
}

/// The scan after more bytes.
pub open spec fn scan_from(st: Scan, bytes: Seq<u8>) -> Scan
    decreases bytes.len(),
{
    if bytes.len() == 0 {
        st
    } else {
        scan_step(scan_from(st, bytes.drop_last()), bytes.last())
    }
}

/// The scan of bytes read from the start of a line.
pub open spec fn scan(bytes: Seq<u8>) -> Scan {
    scan_from(Scan { lines: Seq::empty(), pending: Seq::empty() }, bytes)
}

/// The complete lines among the bytes, each without its line feed.
pub open spec fn complete_lines(bytes: Seq<u8>) -> Seq<Seq<u8>> {
    scan(bytes).lines
}

/// The bytes after the last line feed.
pub open spec fn pending(bytes: Seq<u8>) -> Seq<u8> {
    scan(bytes).pending
}

/// How many of the bytes are consumed: all up to and with the last line
/// feed.
pub open spec fn consumed(bytes: Seq<u8>) -> int {
    bytes.len() - pending(bytes).len()
}

/// A line without the carriage return at its end, if it has one.
pub open spec fn without_cr(line: Seq<u8>) -> Seq<u8> {
    if line.len() > 0 && line.last() == CARRIAGE_RETURN {
        line.drop_last()
    } else {
        line
    }
}

/// The texts of the lines that are valid UTF-8, in order; a line that is not
/// is left out.
pub open spec fn decoded(lines: Seq<Seq<u8>>) -> Seq<Seq<char>>
    decreases lines.len(),
{
    if lines.len() == 0 {
        Seq::empty()
    } else if valid_utf8(without_cr(lines.last())) {
        decoded(lines.drop_last()).push(decode_utf8(without_cr(lines.last())))
    } else {
        decoded(lines.drop_last())
    }
}

/// Scanning two runs of bytes one after the other is scanning them as one.
pub proof fn lemma_scan_add(st: Scan, a: Seq<u8>, b: Seq<u8>)
    ensures
        scan_from(st, a + b) == scan_from(scan_from(st, a), b),
    decreases b.len(),
{
    if b.len() == 0 {
        assert(a + b =~= a);
    } else {
        lemma_scan_add(st, a, b.drop_last());
        assert((a + b).drop_last() =~= a + b.drop_last());
        assert((a + b).last() == b.last());
    }
}

/// The lines found before stay as they are: a scan adds lines behind them,
/// and what it adds depends on the pending bytes alone.
pub proof fn lemma_scan_keeps_lines(st: Scan, bytes: Seq<u8>)
    ensures
        scan_from(st, bytes).lines == st.lines + scan_from(
            Scan { lines: Seq::empty(), pending: st.pending },
            bytes,
        ).lines,
        scan_from(st, bytes).pending == scan_from(
            Scan { lines: Seq::empty(), pending: st.pending },
            bytes,
        ).pending,
    decreases bytes.len(),
{
    let bare = Scan { lines: Seq::empty(), pending: st.pending };
    if bytes.len() == 0 {
        assert(st.lines + bare.lines =~= st.lines);
    } else {
        lemma_scan_keeps_lines(st, bytes.drop_last());
        let s1 = scan_from(st, bytes.drop_last());
        let s2 = scan_from(bare, bytes.drop_last());
        if bytes.last() == LINE_FEED {
            assert((st.lines + s2.lines).push(s1.pending) =~= st.lines + s2.lines.push(
                s2.pending,
            ));
        }
    }
}

/// The pending bytes are the end of what was read, they hold no line feed,
/// and so the bytes consumed end with a line feed or are none.
pub proof fn lemma_pending(bytes: Seq<u8>)
    ensures
        0 <= consumed(bytes) <= bytes.len(),
        pending(bytes) == bytes.skip(consumed(bytes)),
        forall|i: int| 0 <= i < pending(bytes).len() ==> pending(bytes)[i] != LINE_FEED,
        consumed(bytes) > 0 ==> bytes[consumed(bytes) - 1] == LINE_FEED,
    decreases bytes.len(),
{
    if bytes.len() == 0 {
        assert(pending(bytes) =~= bytes.skip(0));
    } else {
        let init = bytes.drop_last();
        lemma_pending(init);
        if bytes.last() == LINE_FEED {
            assert(pending(bytes) =~= bytes.skip(bytes.len() as int));
        } else {
            assert(pending(bytes) =~= bytes.skip(consumed(init)));
            if consumed(init) > 0 {
                assert(bytes[consumed(init) - 1] == init[consumed(init) - 1]);
            }
        }
    }
}

/// Bytes without a line feed hold no complete line and are all pending.
pub proof fn lemma_scan_unfinished(bytes: Seq<u8>)
    requires
        forall|i: int| 0 <= i < bytes.len() ==> bytes[i] != LINE_FEED,
    ensures
        scan(bytes) == (Scan { lines: Seq::empty(), pending: bytes }),
    decreases bytes.len(),
{
    if bytes.len() == 0 {
        assert(scan(bytes).pending =~= bytes);
    } else {
        lemma_scan_unfinished(bytes.drop_last());
        assert(bytes.drop_last().push(bytes.last()) =~= bytes);
    }
}

/// Reading a file in two goes finds what reading it in one go finds. Let
/// `a` be what the first reading found and `b` what was appended since. The
/// second reading starts behind what the first consumed, so it reads the
/// pending bytes of `a` and then `b`. The complete lines of the two readings,
/// one after the other, are the complete lines of `a` and `b` together: no
/// line is found twice, none is left out, and the order is that of the file.
/// What is consumed adds up likewise.
pub proof fn lemma_readings_compose(a: Seq<u8>, b: Seq<u8>)
    ensures
        complete_lines(a + b) == complete_lines(a) + complete_lines(pending(a) + b),
        pending(a + b) == pending(pending(a) + b),
        consumed(a + b) == consumed(a) + consumed(pending(a) + b),
{
    let start = Scan { lines: Seq::empty(), pending: Seq::empty() };
    lemma_scan_add(start, a, b);
    lemma_scan_keeps_lines(scan(a), b);
    lemma_pending(a);
    lemma_scan_unfinished(pending(a));
    lemma_scan_add(start, pending(a), b);
}

/// The texts of lines taken together are the texts of the first and then
/// those of the others.
pub proof fn lemma_decoded_add(a: Seq<Seq<u8>>, b: Seq<Seq<u8>>)
    ensures
        decoded(a + b) == decoded(a) + decoded(b),
    decreases b.len(),
{
    if b.len() == 0 {
        assert(a + b =~= a);
        assert(decoded(a) + decoded(b) =~= decoded(a));
    } else {
        lemma_decoded_add(a, b.drop_last());
        assert((a + b).drop_last() =~= a + b.drop_last());
        assert((a + b).last() == b.last());
        if valid_utf8(without_cr(b.last())) {
            let t = decode_utf8(without_cr(b.last()));
            assert((decoded(a) + decoded(b.drop_last())).push(t) =~= decoded(a) + decoded(
                b.drop_last(),
            ).push(t));
        }
    }
}

/// `String::from_utf8`: the text that the bytes encode, or nothing when they
/// are not valid UTF-8.
#[verifier::external_body]
fn utf8_string(bytes: Vec<u8>) -> (r: Option<String>)
    ensures
        r is Some <==> valid_utf8(bytes@),
        r matches Some(s) ==> s@ == decode_utf8(bytes@),
{
    String::from_utf8(bytes).ok()
}

/// The texts of the complete lines among the bytes read, and how many of the
/// bytes are consumed.
pub fn read_lines(chunk: &Vec<u8>) -> (r: (Vec<String>, usize))
    ensures
        texts(r.0@) == decoded(complete_lines(chunk@)),
        r.1 == consumed(chunk@),
{
    let mut lines: Vec<String> = Vec::new();
    let mut current: Vec<u8> = Vec::new();
    let mut i: usize = 0;
    proof {
        assert(chunk@.take(0) =~= Seq::<u8>::empty());
        assert(texts(lines@) =~= decoded(complete_lines(chunk@.take(0))));
    }
    while i < chunk.len()
        invariant
            0 <= i <= chunk@.len(),
            texts(lines@) == decoded(complete_lines(chunk@.take(i as int))),
            current@ == pending(chunk@.take(i as int)),
        decreases chunk@.len() - i,
    {
        let b = chunk[i];
        proof {
            assert(chunk@.take(i as int + 1).drop_last() =~= chunk@.take(i as int));
            assert(chunk@.take(i as int + 1).last() == b);
        }
        if b == LINE_FEED {
            let ghost found = complete_lines(chunk@.take(i as int));
            let ghost line = current@;
            let mut bytes: Vec<u8> = Vec::new();
            let n = current.len();
            let keep = if n > 0 && current[n - 1] == CARRIAGE_RETURN {
                n - 1
            } else {
                n
            };
            let mut j: usize = 0;
            while j < keep
                invariant
                    0 <= j <= keep <= current@.len(),
                    bytes@ == current@.take(j as int),
                decreases keep - j,
            {
                bytes.push(current[j]);
                proof {
                    assert(bytes@ =~= current@.take(j as int + 1));
                }
                j = j + 1;
            }
            proof {
                assert(bytes@ =~= without_cr(line));
                assert(found.push(line).drop_last() =~= found);
                assert(found.push(line).last() == line);
            }
            match utf8_string(bytes) {
                Some(text) => {
                    proof {
                        assert(texts(lines@.push(text)) =~= texts(lines@).push(text@));
                    }
                    lines.push(text);
                },
                None => {},
            }
            current = Vec::new();
        } else {
            current.push(b);
        }
        i = i + 1;
    }
    proof {
        assert(chunk@.take(i as int) =~= chunk@);
        lemma_pending(chunk@);
    }
    (lines, chunk.len() - current.len())
}

} // verus!
