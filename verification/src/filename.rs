//! Escaping of filenames into make-friendly build-target names.

use vstd::prelude::*;
use vstd::string::StrSliceExecFns;
use vstd::string::StringExecFns;

verus! {

/// The escaping of one character for use in a make-friendly filename:
/// characters that are meaningful to make or a shell become `@...@` tokens,
/// a space becomes an underscore, everything else stays itself.
pub open spec fn escape_char(c: char) -> Seq<char> {
    if c == ' ' {
        seq!['_']
    } else if c == ':' {
        seq!['@', 'C', 'O', 'L', 'O', 'N', '@']
    } else if c == '(' {
        seq!['@', 'L', 'B', 'R', '@']
    } else if c == ')' {
        seq!['@', 'R', 'B', 'R', '@']
    } else if c == '/' {
        seq!['@', 'S', 'L', 'A', 'S', 'H', '@']
    } else if c == '\'' {
        seq!['@', 'S', 'Q', 'U', 'O', 'T', 'E', '@']
    } else if c == '"' {
        seq!['@', 'D', 'Q', 'U', 'O', 'T', 'E', '@']
    } else if c == '*' {
        seq!['@', 'S', 'T', 'A', 'R', '@']
    } else if c == '=' {
        seq!['@', 'E', 'Q', '@']
    } else if c == '$' {
        seq!['@', 'D', 'O', 'L', 'L', 'A', 'R', '@']
    } else if c == '#' {
        seq!['@', 'S', 'H', 'A', 'R', 'P', '@']
    } else if c == '%' {
        seq!['@', 'P', 'E', 'R', 'C', '@']
    } else {
        seq![c]
    }
}

/// The make-friendly escaping of a whole character sequence: each character
/// replaced by its escaping, in order.
pub open spec fn escape_seq(s: Seq<char>) -> Seq<char>
    decreases s.len(),
{
    if s.len() == 0 {
        Seq::empty()
    } else {
        escape_seq(s.drop_last()) + escape_char(s.last())
    }
}

/// Relies on String::push: appends the one character to the end of the string.
#[verifier::external_body]
fn push_char(s: &mut String, c: char)
    ensures
        final(s)@ == old(s)@.push(c),
{
    s.push(c)
}

/// Appends the escaping of `c` to `out`.
fn append_escaped(out: &mut String, c: char)
    ensures
        final(out)@ == old(out)@ + escape_char(c),
{
    if c == ' ' {
        out.append("_");
        proof {
            reveal_strlit("_");
            assert(old(out)@ + "_"@ =~= old(out)@ + escape_char(c));
        }
    } else if c == ':' {
        out.append("@COLON@");
        proof {
            reveal_strlit("@COLON@");
            assert(old(out)@ + "@COLON@"@ =~= old(out)@ + escape_char(c));
        }
    } else if c == '(' {
        out.append("@LBR@");
        proof {
            reveal_strlit("@LBR@");
            assert(old(out)@ + "@LBR@"@ =~= old(out)@ + escape_char(c));
        }
    } else if c == ')' {
        out.append("@RBR@");
        proof {
            reveal_strlit("@RBR@");
            assert(old(out)@ + "@RBR@"@ =~= old(out)@ + escape_char(c));
        }
    } else if c == '/' {
        out.append("@SLASH@");
        proof {
            reveal_strlit("@SLASH@");
            assert(old(out)@ + "@SLASH@"@ =~= old(out)@ + escape_char(c));
        }
    } else if c == '\'' {
        out.append("@SQUOTE@");
        proof {
            reveal_strlit("@SQUOTE@");
            assert(old(out)@ + "@SQUOTE@"@ =~= old(out)@ + escape_char(c));
        }
    } else if c == '"' {
        out.append("@DQUOTE@");
        proof {
            reveal_strlit("@DQUOTE@");
            assert(old(out)@ + "@DQUOTE@"@ =~= old(out)@ + escape_char(c));
        }
    } else if c == '*' {
        out.append("@STAR@");
        proof {
            reveal_strlit("@STAR@");
            assert(old(out)@ + "@STAR@"@ =~= old(out)@ + escape_char(c));
        }
    } else if c == '=' {
        out.append("@EQ@");
        proof {
            reveal_strlit("@EQ@");
            assert(old(out)@ + "@EQ@"@ =~= old(out)@ + escape_char(c));
        }
    } else if c == '$' {
        out.append("@DOLLAR@");
        proof {
            reveal_strlit("@DOLLAR@");
            assert(old(out)@ + "@DOLLAR@"@ =~= old(out)@ + escape_char(c));
        }
    } else if c == '#' {
        out.append("@SHARP@");
        proof {
            reveal_strlit("@SHARP@");
            assert(old(out)@ + "@SHARP@"@ =~= old(out)@ + escape_char(c));
        }
    } else if c == '%' {
        out.append("@PERC@");
        proof {
            reveal_strlit("@PERC@");
            assert(old(out)@ + "@PERC@"@ =~= old(out)@ + escape_char(c));
        }
    } else {
        push_char(out, c);
        proof {
            assert(old(out)@.push(c) =~= old(out)@ + escape_char(c));
        }
    }
}

/// Convert a filename to a make-friendly format.
pub fn filename_to_make(input: &str) -> (r: String)
    ensures
        r@ == escape_seq(input@),
{
    let n = input.unicode_len();
    let mut out = String::new();
    let mut i: usize = 0;
    while i < n
        invariant
            n == input@.len(),
            i <= n,
            out@ == escape_seq(input@.take(i as int)),
        decreases n - i,
    {
        let c = input.get_char(i);
        append_escaped(&mut out, c);
        proof {
            assert(input@.take(i + 1).drop_last() =~= input@.take(i as int));
            assert(input@.take(i + 1).last() == c);
        }
        i = i + 1;
    }
    proof {
        assert(input@.take(n as int) =~= input@);
    }
    out
}

} // verus!
