//! ANSI terminal styling codes, and the stripping of them from text
//! that leaves the terminal (desktop notifications).

use vstd::prelude::*;

verus! {

use vstd::string::*;
use crate::strings::push_char;

pub const RESET: &'static str = "\x1b[0m";

pub const BOLD: &'static str = "\x1b[1m";

pub const DIM: &'static str = "\x1b[2m";

pub const ITALIC: &'static str = "\x1b[3m";

pub const UNDERLINE: &'static str = "\x1b[4m";

pub const RED: &'static str = "\x1b[31m";

pub const GREEN: &'static str = "\x1b[32m";

pub const YELLOW: &'static str = "\x1b[33m";

pub const BLUE: &'static str = "\x1b[34m";

pub const MAGENTA: &'static str = "\x1b[35m";

pub const CYAN: &'static str = "\x1b[36m";

/// `s` with ANSI escape sequences removed: an escape character opens
/// a sequence that runs up to and including the next `m`.
pub open spec fn strip_ansi(s: Seq<char>, in_escape: bool) -> Seq<char>
    decreases s.len(),
{
    if s.len() == 0 {
        Seq::empty()
    } else {
        let c = s[0];
        let rest = s.drop_first();
        if in_escape {
            if c == 'm' {
                strip_ansi(rest, false)
            } else {
                strip_ansi(rest, true)
            }
        } else if c == '\x1b' {
            strip_ansi(rest, true)
        } else {
            seq![c] + strip_ansi(rest, false)
        }
    }
}

/// Removes ANSI escape sequences from `string`.
pub fn remove_colors(string: &str) -> (r: String)
    ensures
        r@ == strip_ansi(string@, false),
{
    let n: usize = string.unicode_len();
    proof {
        assert(string@.subrange(0, n as int) =~= string@);
    }
    let mut out = String::new();
    let mut is_ansi_code = false;
    let mut i: usize = 0;
    while i < n
        invariant
            n == string@.len(),
            0 <= i <= n,
            strip_ansi(string@, false) =~= out@ + strip_ansi(
                string@.subrange(i as int, n as int),
                is_ansi_code,
            ),
        decreases n - i,
    {
        let c = string.get_char(i);
        proof {
            let rest = string@.subrange(i as int, n as int);
            assert(rest[0] == string@[i as int]);
            assert(rest.drop_first() =~= string@.subrange(i + 1, n as int));
        }
        if is_ansi_code {
            if c == 'm' {
                is_ansi_code = false;
            }
        } else if c == '\x1b' {
            is_ansi_code = true;
        } else {
            let ghost prev = out@;
            push_char(&mut out, c);
            proof {
                assert(prev + (seq![c] + strip_ansi(string@.subrange(i + 1, n as int), false))
                    =~= out@ + strip_ansi(string@.subrange(i + 1, n as int), false));
            }
        }
        i += 1;
    }
    proof {
        assert(string@.subrange(n as int, n as int) =~= Seq::<char>::empty());
        assert(out@ + Seq::<char>::empty() =~= out@);
    }
    out
}

} // verus!
