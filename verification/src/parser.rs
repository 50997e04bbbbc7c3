//! Line parser: classifies one decoded history line.
//!
//! A trimmed line is either a continuation fragment (trailing backslash,
//! skipped), a timestamped record `": <digits>:(0;)?<command>"`, or a plain
//! command. The timestamped form is anchored at both ends; the command part
//! is captured verbatim, embedded colons and semicolons included. A digit
//! group too large for a 64-bit timestamp falls back to the plain form.

use vstd::prelude::*;

use crate::entry::{Entry, EntryView};

verus! {

/// Whether `c` has the Unicode `White_Space` property, the set that line
/// trimming removes at both ends.
pub open spec fn is_ws_char(c: char) -> bool {
    ||| c == ' '
    ||| c == '\t'
    ||| c == '\n'
    ||| c == '\u{b}'
    ||| c == '\u{c}'
    ||| c == '\r'
    ||| c == '\u{85}'
    ||| c == '\u{a0}'
    ||| c == '\u{1680}'
    ||| (0x2000 <= c as u32 && c as u32 <= 0x200a)
    ||| c == '\u{2028}'
    ||| c == '\u{2029}'
    ||| c == '\u{202f}'
    ||| c == '\u{205f}'
    ||| c == '\u{3000}'
}

/// Whether `c` is an ASCII decimal digit.
pub open spec fn is_digit_char(c: char) -> bool {
    48 <= c as u32 && c as u32 <= 57
}

/// `s` with leading whitespace removed.
pub open spec fn trim_front(s: Seq<char>) -> Seq<char>
    decreases s.len(),
{
    if s.len() > 0 && is_ws_char(s[0]) {
        trim_front(s.drop_first())
    } else {
        s
    }
}

/// `s` with trailing whitespace removed.
pub open spec fn trim_back(s: Seq<char>) -> Seq<char>
    decreases s.len(),
{
    if s.len() > 0 && is_ws_char(s.last()) {
        trim_back(s.drop_last())
    } else {
        s
    }
}

/// `s` with whitespace removed at both ends.
pub open spec fn trimmed(s: Seq<char>) -> Seq<char> {
    trim_back(trim_front(s))
}

/// The end of the run of digits in `t` that starts at `from`: the first
/// position at or after `from` that is not a digit.
pub open spec fn digit_run_end(t: Seq<char>, from: int) -> int
    decreases t.len() - from,
{
    if from < 0 || from >= t.len() || !is_digit_char(t[from]) {
        from
    } else {
        digit_run_end(t, from + 1)
    }
}

/// The value of a sequence of ASCII decimal digits, most significant first.
pub open spec fn digits_val(ds: Seq<char>) -> int
    decreases ds.len(),
{
    if ds.len() == 0 {
        0
    } else {
        10 * digits_val(ds.drop_last()) + (ds.last() as u32 - 48)
    }
}

/// Whether the trimmed line `t` has the timestamped shape
/// `": <digits>:(0;)?<command>"`: a colon, a space, at least one digit, a
/// colon, and a nonempty remainder.
pub open spec fn ts_form(t: Seq<char>) -> bool {
    &&& t.len() >= 2
    &&& t[0] == ':'
    &&& t[1] == ' '
    &&& digit_run_end(t, 2) > 2
    &&& digit_run_end(t, 2) + 1 < t.len()
    &&& t[digit_run_end(t, 2)] == ':'
}

/// The digit group of a line in timestamped shape.
pub open spec fn ts_digits(t: Seq<char>) -> Seq<char> {
    t.subrange(2, digit_run_end(t, 2))
}

/// The command of a line in timestamped shape: everything after the second
/// colon, less one leading literal `0;` when dropping it leaves the command
/// nonempty.
pub open spec fn ts_rest(t: Seq<char>) -> Seq<char> {
    let rest = t.skip(digit_run_end(t, 2) + 1);
    if rest.len() > 2 && rest[0] == '0' && rest[1] == ';' {
        rest.skip(2)
    } else {
        rest
    }
}

/// How one decoded line is classified: skipped (`None`), or an entry with a
/// command and a timestamp. A continuation line (trimmed, ending in a
/// backslash) is skipped; a timestamped line whose digit group fits an `i64`
/// yields its command and timestamp; anything else yields the whole trimmed
/// line with timestamp 0.
pub open spec fn line_entry(s: Seq<char>) -> Option<EntryView> {
    let t = trimmed(s);
    if t.len() > 0 && t.last() == '\\' {
        None
    } else if ts_form(t) && digits_val(ts_digits(t)) <= i64::MAX {
        Some(EntryView { cmd: ts_rest(t), when: digits_val(ts_digits(t)) })
    } else {
        Some(EntryView { cmd: t, when: 0 })
    }
}

/// Whether `c` has the Unicode `White_Space` property.
fn is_ws(c: char) -> (r: bool)
    ensures
        r == is_ws_char(c),
{
    let u: u32 = c as u32;
    c == ' ' || c == '\t' || c == '\n' || c == '\u{b}' || c == '\u{c}' || c == '\r'
        || c == '\u{85}' || c == '\u{a0}' || c == '\u{1680}' || (0x2000 <= u && u <= 0x200a)
        || c == '\u{2028}' || c == '\u{2029}' || c == '\u{202f}' || c == '\u{205f}'
        || c == '\u{3000}'
}

/// Whether `c` is an ASCII decimal digit.
fn is_digit(c: char) -> (r: bool)
    ensures
        r == is_digit_char(c),
{
    let u: u32 = c as u32;
    48 <= u && u <= 57
}

/// Every digit sequence has a nonnegative value.
proof fn lemma_digits_val_nonneg(ds: Seq<char>)
    requires
        forall|i: int| 0 <= i < ds.len() ==> is_digit_char(ds[i]),
    ensures
        digits_val(ds) >= 0,
    decreases ds.len(),
{
    if ds.len() > 0 {
        lemma_digits_val_nonneg(ds.drop_last());
    }
}

/// Extending a digit sequence never decreases its value.
proof fn lemma_digits_val_mono(ds: Seq<char>, i: int)
    requires
        forall|k: int| 0 <= k < ds.len() ==> is_digit_char(ds[k]),
        0 <= i <= ds.len(),
    ensures
        digits_val(ds) >= digits_val(ds.take(i)),
    decreases ds.len() - i,
{
    if i == ds.len() {
        assert(ds.take(i) =~= ds);
    } else {
        lemma_digits_val_mono(ds, i + 1);
        assert(ds.take(i + 1).drop_last() =~= ds.take(i));
        lemma_digits_val_nonneg(ds.take(i));
        assert(digits_val(ds.take(i + 1)) == 10 * digits_val(ds.take(i)) + (ds[i] as u32 - 48));
    }
}

/// Reads the digit group `line[lo..hi]` as a signed 64-bit integer, or
/// reports that its value does not fit.
#[verifier::loop_isolation(false)]
fn parse_ts(line: &str, lo: usize, hi: usize) -> (r: Option<i64>)
    requires
        lo < hi <= line@.len(),
        forall|i: int| lo <= i < hi ==> is_digit_char(line@[i]),
    ensures
        match r {
            Some(v) => v == digits_val(line@.subrange(lo as int, hi as int)),
            None => digits_val(line@.subrange(lo as int, hi as int)) > i64::MAX,
        },
{
    let ghost ds = line@.subrange(lo as int, hi as int);
    let mut acc: i64 = 0;
    let mut k: usize = lo;
    proof {
        assert(ds.take(0) =~= Seq::<char>::empty());
    }
    while k < hi
        invariant
            lo <= k <= hi,
            0 <= acc,
            acc == digits_val(ds.take(k - lo)),
        decreases hi - k,
    {
        let c = line.get_char(k);
        let d: i64 = (c as u32 - 48) as i64;
        proof {
            assert(ds[k - lo] == line@[k as int]);
            assert(ds.take(k + 1 - lo).drop_last() =~= ds.take(k - lo));
            assert(digits_val(ds.take(k + 1 - lo)) == 10 * acc + d);
        }
        if acc > (i64::MAX - d) / 10 {
            proof {
                assert(10 * acc + d > i64::MAX) by {
                    assert(acc >= (i64::MAX - d) / 10 + 1);
                    assert(10 * ((i64::MAX - d) / 10) >= i64::MAX - d - 9);
                };
                lemma_digits_val_mono(ds, k + 1 - lo);
            }
            return None;
        }
        proof {
            assert(10 * acc + d <= i64::MAX) by {
                assert(acc <= (i64::MAX - d) / 10);
                assert(10 * ((i64::MAX - d) / 10) <= i64::MAX - d);
            };
        }
        acc = acc * 10 + d;
        k = k + 1;
    }
    proof {
        assert(ds.take(hi - lo) =~= ds);
    }
    Some(acc)
}

/// Classifies one decoded line exactly as [`line_entry`] describes: `None`
/// for a continuation line, otherwise an [`Entry`] holding the command and
/// its timestamp.
#[verifier::loop_isolation(false)]
pub fn parse_line(line: &str) -> (r: Option<Entry>)
    ensures
        match line_entry(line@) {
            Some(ev) => r matches Some(e) && e@ == ev,
            None => r is None,
        },
{
    let n = line.unicode_len();

    let mut a: usize = 0;
    proof {
        assert(line@.skip(0) =~= line@);
    }
    while a < n && is_ws(line.get_char(a))
        invariant
            a <= n,
            trim_front(line@) == trim_front(line@.skip(a as int)),
        decreases n - a,
    {
        proof {
            assert(line@.skip(a as int)[0] == line@[a as int]);
            assert(line@.skip(a as int).drop_first() =~= line@.skip(a + 1));
        }
        a = a + 1;
    }
    proof {
        if a == n {
            assert(line@.skip(a as int) =~= Seq::<char>::empty());
        }
        assert(trim_front(line@) == line@.skip(a as int));
    }

    let mut b: usize = n;
    proof {
        assert(line@.subrange(a as int, n as int) =~= line@.skip(a as int));
    }
    while b > a && is_ws(line.get_char(b - 1))
        invariant
            a <= b <= n,
            trim_back(line@.skip(a as int)) == trim_back(line@.subrange(a as int, b as int)),
        decreases b,
    {
        proof {
            assert(line@.subrange(a as int, b as int).last() == line@[b - 1]);
            assert(line@.subrange(a as int, b as int).drop_last() =~= line@.subrange(
                a as int,
                b - 1,
            ));
        }
        b = b - 1;
    }
    let ghost t = line@.subrange(a as int, b as int);
    proof {
        assert(trimmed(line@) == t);
        if b > a {
            assert(t.last() == line@[b - 1]);
        }
        if b - a >= 2 {
            assert(t[0] == line@[a as int]);
            assert(t[1] == line@[a + 1]);
        }
    }

    if b > a && line.get_char(b - 1) == '\\' {
        return None;
    }

    if b - a >= 2 && line.get_char(a) == ':' && line.get_char(a + 1) == ' ' {
        let mut j: usize = a + 2;
        while j < b && is_digit(line.get_char(j))
            invariant
                a + 2 <= j <= b,
                digit_run_end(t, 2) == digit_run_end(t, j - a),
                forall|i: int| a + 2 <= i < j ==> is_digit_char(line@[i]),
            decreases b - j,
        {
            proof {
                assert(t[j - a] == line@[j as int]);
            }
            j = j + 1;
        }
        proof {
            if j < b {
                assert(t[j - a] == line@[j as int]);
            }
            assert(digit_run_end(t, 2) == j - a);
        }

        if j > a + 2 && b - j >= 2 && line.get_char(j) == ':' {
            proof {
                assert(ts_form(t));
                assert(ts_digits(t) =~= line@.subrange(a + 2, j as int));
            }
            if let Some(when) = parse_ts(line, a + 2, j) {
                proof {
                    assert(t.skip(j - a + 1) =~= line@.subrange(j + 1, b as int));
                }
                let cs: usize = if b - j >= 4 && line.get_char(j + 1) == '0' && line.get_char(
                    j + 2,
                ) == ';' {
                    proof {
                        assert(line@.subrange(j + 1, b as int)[0] == line@[j + 1]);
                        assert(line@.subrange(j + 1, b as int)[1] == line@[j + 2]);
                        assert(line@.subrange(j + 1, b as int).skip(2) =~= line@.subrange(
                            j + 3,
                            b as int,
                        ));
                    }
                    j + 3
                } else {
                    proof {
                        if line@.subrange(j + 1, b as int).len() > 2 {
                            assert(line@.subrange(j + 1, b as int)[0] == line@[j + 1]);
                            assert(line@.subrange(j + 1, b as int)[1] == line@[j + 2]);
                        }
                    }
                    j + 1
                };
                proof {
                    assert(ts_rest(t) == line@.subrange(cs as int, b as int));
                }
                let cmd = line.substring_char(cs, b).to_owned();
                return Some(Entry { cmd, when });
            }
        }
    }

    let cmd = line.substring_char(a, b).to_owned();
    Some(Entry { cmd, when: 0 })
}

} // verus!
