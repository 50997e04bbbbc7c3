//! A single parsed history record: the command text and its timestamp.

use vstd::prelude::*;
use vstd::string::StringExecFns;

verus! {

/// A zsh history entry.
#[derive(Debug)]
pub struct Entry {
    /// The command executed.
    pub cmd: String,
    /// The time the command was executed. Set to 0 if the time information
    /// is not available.
    pub when: i64,
}

/// The mathematical content of an [`Entry`]: the command as a character
/// sequence and the timestamp as an unbounded integer.
pub ghost struct EntryView {
    pub cmd: Seq<char>,
    pub when: int,
}

impl View for Entry {
    type V = EntryView;

    open spec fn view(&self) -> EntryView {
        EntryView { cmd: self.cmd@, when: self.when as int }
    }
}

/// The character for the decimal digit `d`.
pub open spec fn digit_char(d: int) -> char {
    if d == 0 {
        '0'
    } else if d == 1 {
        '1'
    } else if d == 2 {
        '2'
    } else if d == 3 {
        '3'
    } else if d == 4 {
        '4'
    } else if d == 5 {
        '5'
    } else if d == 6 {
        '6'
    } else if d == 7 {
        '7'
    } else if d == 8 {
        '8'
    } else {
        '9'
    }
}

/// The decimal digits of a nonnegative integer, most significant first, with
/// no leading zero except for 0 itself.
pub open spec fn dec_digits(n: int) -> Seq<char>
    decreases n,
{
    if n < 10 {
        seq![digit_char(n)]
    } else {
        dec_digits(n / 10) + seq![digit_char(n % 10)]
    }
}

/// The decimal rendering of a timestamp: the digits of its magnitude, with a
/// leading minus sign when it is negative.
pub open spec fn timestamp_chars(when: int) -> Seq<char> {
    if when < 0 {
        seq!['-'] + dec_digits(-when)
    } else {
        dec_digits(when)
    }
}

/// The two-line textual rendering of an entry:
/// `- cmd: <command>` followed by `  when: <timestamp>`.
pub open spec fn rendered(e: EntryView) -> Seq<char> {
    seq!['-', ' ', 'c', 'm', 'd', ':', ' '] + e.cmd + seq!['\n', ' ', ' ', 'w', 'h', 'e', 'n', ':', ' ']
        + timestamp_chars(e.when)
}

/// The one-character string for the decimal digit `d`.
fn digit_str(d: u64) -> (r: &'static str)
    requires
        d <= 9,
    ensures
        r@ == seq![digit_char(d as int)],
{
    let r: &'static str = if d == 0 {
        "0"
    } else if d == 1 {
        "1"
    } else if d == 2 {
        "2"
    } else if d == 3 {
        "3"
    } else if d == 4 {
        "4"
    } else if d == 5 {
        "5"
    } else if d == 6 {
        "6"
    } else if d == 7 {
        "7"
    } else if d == 8 {
        "8"
    } else {
        "9"
    };
    proof {
        reveal_strlit("0");
        reveal_strlit("1");
        reveal_strlit("2");
        reveal_strlit("3");
        reveal_strlit("4");
        reveal_strlit("5");
        reveal_strlit("6");
        reveal_strlit("7");
        reveal_strlit("8");
        reveal_strlit("9");
        assert(r@ =~= seq![digit_char(d as int)]);
    }
    r
}

/// Appends the decimal digits of `m` to `s`, most significant first.
fn append_dec(s: &mut String, m: u64)
    ensures
        final(s)@ == old(s)@ + dec_digits(m as int),
    decreases m,
{
    if m >= 10 {
        append_dec(s, m / 10);
        s.append(digit_str(m % 10));
        proof {
            assert(old(s)@ + (dec_digits(m as int / 10) + seq![digit_char(m as int % 10)]) =~= (
            old(s)@ + dec_digits(m as int / 10)) + seq![digit_char(m as int % 10)]);
        }
    } else {
        s.append(digit_str(m));
    }
}

impl Entry {
    /// The textual rendering of this entry: the line `- cmd: <command>`
    /// followed by the line `  when: <timestamp>`, with no trailing
    /// punctuation.
    pub fn render(&self) -> (r: String)
        ensures
            r@ == rendered(self@),
    {
        let mut s = String::new();
        s.append("- cmd: ");
        proof {
            reveal_strlit("- cmd: ");
            assert(s@ =~= seq!['-', ' ', 'c', 'm', 'd', ':', ' ']);
        }
        s.append(self.cmd.as_str());
        s.append("\n  when: ");
        proof {
            reveal_strlit("\n  when: ");
            assert("\n  when: "@ =~= seq!['\n', ' ', ' ', 'w', 'h', 'e', 'n', ':', ' ']);
        }
        let ghost head = s@;
        let m: u64 = if self.when == i64::MIN {
            s.append("-");
            9223372036854775808u64
        } else if self.when < 0 {
            s.append("-");
            (-self.when) as u64
        } else {
            self.when as u64
        };
        proof {
            reveal_strlit("-");
            assert("-"@ =~= seq!['-']);
            if self.when < 0 {
                assert(s@ =~= head + seq!['-']);
            }
        }
        append_dec(&mut s, m);
        proof {
            assert(s@ =~= rendered(self@));
        }
        s
    }
}

} // verus!
