//! Entry stream builder: turns a whole byte source into an ordered entry
//! sequence.
//!
//! The source is split into records at newline bytes (a record keeps its
//! terminator; the last record may lack one). Each record is decoded and
//! classified; entries are appended in source order, skipped records leave
//! no trace. An empty source yields an empty sequence.

use vstd::prelude::*;
use vstd::slice::slice_subrange;

use crate::codec::{decode, decoded, lossy_utf8};
use crate::entry::{Entry, EntryView};
use crate::parser::{line_entry, parse_line};

verus! {

/// The position of the first newline byte in `s`, or `s.len()` if there is
/// none.
pub open spec fn first_nl(s: Seq<u8>) -> int
    decreases s.len(),
{
    if s.len() == 0 {
        0
    } else if s[0] == 0x0a {
        0
    } else {
        1 + first_nl(s.drop_first())
    }
}

/// `first_nl` is in bounds, everything before it is not a newline, and it
/// points at a newline unless there is none.
proof fn lemma_first_nl(s: Seq<u8>)
    ensures
        0 <= first_nl(s) <= s.len(),
        forall|i: int| 0 <= i < first_nl(s) ==> s[i] != 0x0a,
        first_nl(s) < s.len() ==> s[first_nl(s)] == 0x0a,
    decreases s.len(),
{
    if s.len() > 0 && s[0] != 0x0a {
        lemma_first_nl(s.drop_first());
        assert(forall|i: int| 1 <= i < first_nl(s) ==> s[i] == s.drop_first()[i - 1]);
    }
}

/// The entries that the byte source `s` yields: its first newline-terminated
/// record is decoded and classified, and the rest follows, in order.
pub open spec fn entries_of(s: Seq<u8>) -> Seq<EntryView>
    decreases s.len(),
    via entries_of_dec
{
    if s.len() == 0 {
        Seq::empty()
    } else {
        let k = first_nl(s);
        let rec = if k < s.len() {
            s.take(k + 1)
        } else {
            s
        };
        let rest = if k < s.len() {
            s.skip(k + 1)
        } else {
            Seq::empty()
        };
        match line_entry(lossy_utf8(decoded(rec))) {
            Some(ev) => seq![ev] + entries_of(rest),
            None => entries_of(rest),
        }
    }
}

#[via_fn]
proof fn entries_of_dec(s: Seq<u8>) {
    lemma_first_nl(s);
}

/// The views of a sequence of entries.
pub open spec fn views_of(es: Seq<Entry>) -> Seq<EntryView> {
    es.map_values(|e: Entry| e@)
}

/// Reads the whole source, record by record, and returns the entries it
/// yields, in source order.
#[verifier::loop_isolation(false)]
pub fn build(source: &[u8]) -> (r: Vec<Entry>)
    ensures
        views_of(r@) == entries_of(source@),
{
    let n = source.len();
    let mut out: Vec<Entry> = Vec::new();
    let mut start: usize = 0;
    proof {
        assert(source@.skip(0) =~= source@);
        assert(views_of(out@) + entries_of(source@) =~= entries_of(source@));
    }
    while start < n
        invariant
            start <= n,
            entries_of(source@) == views_of(out@) + entries_of(source@.skip(start as int)),
        decreases n - start,
    {
        let ghost rest = source@.skip(start as int);
        let mut j: usize = start;
        while j < n && source[j] != 0x0a
            invariant
                start <= j <= n,
                forall|i: int| start <= i < j ==> source@[i] != 0x0a,
            decreases n - j,
        {
            j = j + 1;
        }
        proof {
            lemma_first_nl(rest);
            assert(forall|i: int| 0 <= i < rest.len() ==> rest[i] == source@[start + i]);
            if j < n {
                assert(rest[j - start] == 0x0a);
                assert(first_nl(rest) == j - start);
            } else {
                assert(first_nl(rest) == rest.len());
            }
        }
        let rec_end: usize = if j < n {
            j + 1
        } else {
            n
        };
        let rec = slice_subrange(source, start, rec_end);
        proof {
            if j < n {
                assert(rec@ =~= rest.take(j - start + 1));
                assert(rest.skip(j - start + 1) =~= source@.skip(rec_end as int));
            } else {
                assert(rec@ =~= rest);
                assert(source@.skip(rec_end as int) =~= Seq::<u8>::empty());
            }
        }
        let line = decode(rec);
        match parse_line(line.as_str()) {
            Some(e) => {
                proof {
                    let ev = line_entry(lossy_utf8(decoded(rec@)))->Some_0;
                    assert(views_of(out@.push(e)) =~= views_of(out@).push(e@));
                    assert(views_of(out@) + (seq![ev] + entries_of(source@.skip(rec_end as int)))
                        =~= views_of(out@).push(ev) + entries_of(source@.skip(rec_end as int)));
                }
                out.push(e);
            },
            None => {},
        }
        start = rec_end;
    }
    proof {
        assert(source@.skip(n as int) =~= Seq::<u8>::empty());
        assert(views_of(out@) + Seq::<EntryView>::empty() =~= views_of(out@));
    }
    out
}

} // verus!
