//! Runtime mode of the host: normal execution, testing or benchmarking.

use vstd::prelude::*;
use vstd::string::*;

verus! {

/// Whether the host runs in testing/benchmarking or normal mode.
#[derive(Clone, Copy, PartialEq, Eq, Structural, Debug)]
pub enum RuntimeState {
    Default,
    Test,
    Bench,
}

/// ASCII lowercase folding of one character; other characters are kept.
pub open spec fn lower_char(c: char) -> char {
    if 'A' <= c && c <= 'Z' {
        ((c as u8) + 32) as char
    } else {
        c
    }
}

/// ASCII lowercase folding of a character sequence.
pub open spec fn lower_seq(s: Seq<char>) -> Seq<char> {
    s.map_values(|c: char| lower_char(c))
}

/// The error of a mode string that names no runtime mode; it keeps the
/// rejected input.
#[derive(Debug)]
pub struct RuntimeStateError {
    pub input: String,
}

fn lower_char_exec(c: char) -> (r: char)
    ensures
        r == lower_char(c),
{
    if 'A' <= c && c <= 'Z' {
        ((c as u8) + 32) as char
    } else {
        c
    }
}

fn eq_ignore_ascii_case(a: &str, b: &str) -> (r: bool)
    ensures
        r == (lower_seq(a@) == lower_seq(b@)),
{
    let na = a.unicode_len();
    let nb = b.unicode_len();
    if na != nb {
        proof {
            assert(lower_seq(a@).len() != lower_seq(b@).len());
        }
        return false;
    }
    let mut i: usize = 0;
    while i < na
        invariant
            i <= na,
            na == a@.len(),
            na == b@.len(),
            forall|j: int| 0 <= j < i ==> lower_seq(a@)[j] == lower_seq(b@)[j],
        decreases na - i,
    {
        let ca = lower_char_exec(a.get_char(i));
        let cb = lower_char_exec(b.get_char(i));
        if ca != cb {
            proof {
                assert(lower_seq(a@)[i as int] != lower_seq(b@)[i as int]);
            }
            return false;
        }
        i = i + 1;
    }
    proof {
        assert(lower_seq(a@) =~= lower_seq(b@));
    }
    true
}

impl RuntimeState {
    /// The mode's name, as the host scripts see it.
    pub fn to_string(&self) -> (r: String)
        ensures
            r@ == match *self {
                RuntimeState::Default => "default"@,
                RuntimeState::Test => "test"@,
                RuntimeState::Bench => "bench"@,
            },
    {
        match self {
            RuntimeState::Default => "default".to_owned(),
            RuntimeState::Test => "test".to_owned(),
            RuntimeState::Bench => "bench".to_owned(),
        }
    }

    /// Parses a mode name, ignoring ASCII case: `run` and `default` name
    /// the normal mode, `test` and `bench` the other two; anything else is
    /// rejected with the input preserved.
    pub fn from_str(s: &str) -> (r: Result<RuntimeState, RuntimeStateError>)
        ensures
            (r == Ok::<RuntimeState, RuntimeStateError>(RuntimeState::Default)) <==> (lower_seq(s@)
                == "run"@ || lower_seq(s@) == "default"@),
            (r == Ok::<RuntimeState, RuntimeStateError>(RuntimeState::Test)) <==> lower_seq(s@)
                == "test"@,
            (r == Ok::<RuntimeState, RuntimeStateError>(RuntimeState::Bench)) <==> lower_seq(s@)
                == "bench"@,
            match r {
                Ok(_) => true,
                Err(e) => e.input@ == s@,
            },
    {
        proof {
            reveal_strlit("run");
            reveal_strlit("default");
            reveal_strlit("test");
            reveal_strlit("bench");
            assert(lower_seq("run"@) =~= "run"@);
            assert(lower_seq("default"@) =~= "default"@);
            assert(lower_seq("test"@) =~= "test"@);
            assert(lower_seq("bench"@) =~= "bench"@);
        }
        if eq_ignore_ascii_case(s, "run") || eq_ignore_ascii_case(s, "default") {
            Ok(RuntimeState::Default)
        } else if eq_ignore_ascii_case(s, "test") {
            Ok(RuntimeState::Test)
        } else if eq_ignore_ascii_case(s, "bench") {
            Ok(RuntimeState::Bench)
        } else {
            Err(RuntimeStateError { input: s.to_owned() })
        }
    }
}

} // verus!
