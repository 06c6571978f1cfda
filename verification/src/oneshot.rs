//! The one-shot invoker's decisions: the argument list handed to the
//! renderer binary, and how an exited process's outcome is read. The
//! spawning, writing and waiting themselves happen outside the library,
//! which hands the exit status and the two captured output channels in.

use vstd::prelude::*;
use crate::codec::{decode_payload, result_view, spec_decode_payload};
use crate::errors::{Error, ErrorSpec};
use crate::foreign::{lossy_chars, string_from_utf8_lossy};
use crate::result::RenderResult;

verus! {

/// ASCII whitespace as trimmed from diagnostic text.
pub open spec fn is_ascii_ws(b: u8) -> bool {
    b == 0x20 || (0x09 <= b <= 0x0D)
}

pub open spec fn trim_front(s: Seq<u8>) -> Seq<u8>
    decreases s.len(),
{
    if s.len() == 0 {
        s
    } else if is_ascii_ws(s[0]) {
        trim_front(s.drop_first())
    } else {
        s
    }
}

pub open spec fn trim_back(s: Seq<u8>) -> Seq<u8>
    decreases s.len(),
{
    if s.len() == 0 {
        s
    } else if is_ascii_ws(s[s.len() - 1]) {
        trim_back(s.drop_last())
    } else {
        s
    }
}

/// The input with leading and trailing ASCII whitespace removed.
pub open spec fn spec_trim(s: Seq<u8>) -> Seq<u8> {
    trim_back(trim_front(s))
}

pub(crate) fn trim_ascii(s: &[u8]) -> (r: Vec<u8>)
    ensures
        r@ == spec_trim(s@),
{
    let n = s.len();
    proof {
        assert(s@.subrange(0, n as int) =~= s@);
    }
    let mut a: usize = 0;
    while a < n && (s[a] == 0x20 || (0x09 <= s[a] && s[a] <= 0x0D))
        invariant
            0 <= a <= n,
            n == s@.len(),
            trim_front(s@) == trim_front(s@.subrange(a as int, n as int)),
        decreases n - a,
    {
        proof {
            assert(s@.subrange(a as int, n as int).drop_first() =~= s@.subrange(
                a + 1,
                n as int,
            ));
        }
        a = a + 1;
    }
    proof {
        if a < n {
            assert(trim_front(s@.subrange(a as int, n as int)) == s@.subrange(a as int, n as int));
        } else {
            assert(s@.subrange(a as int, n as int) =~= Seq::<u8>::empty());
        }
        assert(trim_front(s@) == s@.subrange(a as int, n as int));
    }
    let mut b: usize = n;
    while b > a && (s[b - 1] == 0x20 || (0x09 <= s[b - 1] && s[b - 1] <= 0x0D))
        invariant
            a <= b <= n,
            n == s@.len(),
            trim_back(s@.subrange(a as int, n as int)) == trim_back(s@.subrange(a as int, b as int)),
        decreases b,
    {
        proof {
            assert(s@.subrange(a as int, b as int).drop_last() =~= s@.subrange(a as int, b - 1));
        }
        b = b - 1;
    }
    proof {
        if b > a {
            assert(trim_back(s@.subrange(a as int, b as int)) == s@.subrange(a as int, b as int));
        } else {
            assert(s@.subrange(a as int, b as int) =~= Seq::<u8>::empty());
        }
        assert(spec_trim(s@) == s@.subrange(a as int, b as int));
    }
    let mut out: Vec<u8> = Vec::new();
    let mut k = a;
    while k < b
        invariant
            a <= k <= b <= n,
            n == s@.len(),
            out@ == s@.subrange(a as int, k as int),
        decreases b - k,
    {
        out.push(s[k]);
        proof {
            assert(s@.subrange(a as int, k as int).push(s@[k as int]) =~= s@.subrange(
                a as int,
                k + 1,
            ));
        }
        k = k + 1;
    }
    proof {
        assert(out@ == spec_trim(s@));
    }
    out
}

pub open spec fn opt_chars(o: Option<&str>) -> Option<Seq<char>> {
    match o {
        None => None,
        Some(s) => Some(s@),
    }
}

/// The argument list of a one-shot invocation: render from standard
/// input in the given format with structured output, plus the optional
/// theme and engine selectors.
pub open spec fn spec_invocation_args(
    f: Seq<char>,
    t: Option<Seq<char>>,
    e: Option<Seq<char>>,
) -> Seq<Seq<char>> {
    seq!["render"@, "--stdin"@, "--format"@, f, "--json"@] + (match t {
        None => Seq::empty(),
        Some(tv) => seq!["--theme"@, tv],
    }) + (match e {
        None => Seq::empty(),
        Some(ev) => seq!["--engine"@, ev],
    })
}

/// Builds the command-line arguments for one one-shot render call.
pub fn invocation_args(format: &str, theme: Option<&str>, engine: Option<&str>) -> (v: Vec<String>)
    ensures
        v.deep_view() == spec_invocation_args(format@, opt_chars(theme), opt_chars(engine)),
{
    let mut v: Vec<String> = Vec::new();
    v.push("render".to_owned());
    v.push("--stdin".to_owned());
    v.push("--format".to_owned());
    v.push(format.to_owned());
    v.push("--json".to_owned());
    match theme {
        None => {},
        Some(t) => {
            v.push("--theme".to_owned());
            v.push(t.to_owned());
        },
    }
    match engine {
        None => {},
        Some(e) => {
            v.push("--engine".to_owned());
            v.push(e.to_owned());
        },
    }
    proof {
        assert(v.deep_view() =~~= spec_invocation_args(
            format@,
            opt_chars(theme),
            opt_chars(engine),
        ));
    }
    v
}

/// What a finished one-shot process means: a failed exit surfaces the
/// trimmed diagnostic text as the renderer's own error; a successful
/// exit has its output document decoded.
pub open spec fn spec_interpret_outcome(
    success: bool,
    output_doc: Seq<u8>,
    diagnostic: Seq<u8>,
) -> Result<crate::result::RenderResultSpec, ErrorSpec> {
    if !success {
        Err(ErrorSpec::RenderError(lossy_chars(spec_trim(diagnostic))))
    } else {
        spec_decode_payload(output_doc)
    }
}

/// Reads the outcome of one one-shot invocation: the process's exit
/// status, its captured output channel and its captured diagnostic
/// channel.
pub fn interpret_outcome(success: bool, output_doc: &[u8], diagnostic: &[u8]) -> (r: Result<
    RenderResult,
    Error,
>)
    ensures
        result_view(r) == spec_interpret_outcome(success, output_doc@, diagnostic@),
        r matches Ok(rr) ==> rr@.wf(),
{
    if !success {
        let t = trim_ascii(diagnostic);
        Err(Error::RenderError(string_from_utf8_lossy(t.as_slice())))
    } else {
        decode_payload(output_doc)
    }
}

} // verus!
