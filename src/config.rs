use vstd::prelude::*;

use crate::error::MdckError;

verus! {

/// Where documents come from: standard input, one file, or a directory tree.
#[derive(Debug)]
pub enum Source {
    Stdin,
    File(String),
    Directory(String),
}

impl Source {
    pub fn is_stdin(&self) -> (r: bool)
        ensures
            r == (self is Stdin),
    {
        match self {
            Source::Stdin => true,
            _ => false,
        }
    }
}

/// How many of `s` are standard input.
pub open spec fn stdin_count(s: Seq<Source>) -> nat
    decreases s.len(),
{
    if s.len() == 0 {
        0
    } else {
        stdin_count(s.drop_last()) + if s.last() is Stdin {
            1nat
        } else {
            0nat
        }
    }
}

/// The error for naming standard input more than once.
pub open spec fn is_stdin_twice(e: MdckError) -> bool {
    e matches MdckError::Internal(m) && m@ == "You may only use stdin once"@
}

/// The sources to check.
pub struct Config {
    pub sources: Vec<Source>,
}

impl Config {
    /// Builds the configuration from the sources named on the command line:
    /// none means standard input; standard input may be named once at most.
    pub fn new(sources: Vec<Source>) -> (r: Result<Config, MdckError>)
        ensures
            sources@.len() == 0 ==> (r matches Ok(c) && c.sources@ == seq![Source::Stdin]),
            sources@.len() > 0 ==> (r is Err <==> stdin_count(sources@) > 1),
            sources@.len() > 0 && r is Ok ==> r->Ok_0.sources@ == sources@,
            r matches Err(e) ==> is_stdin_twice(e),
    {
        let mut sources = sources;
        if sources.len() == 0 {
            sources.push(Source::Stdin);
        } else {
            match Self::multiple_stdin(sources.as_slice()) {
                Ok(()) => {},
                Err(e) => {
                    return Err(e);
                },
            }
        }
        Ok(Config { sources })
    }

    /// Fails when standard input is named more than once.
    pub fn multiple_stdin(sources: &[Source]) -> (r: Result<(), MdckError>)
        ensures
            r is Err <==> stdin_count(sources@) > 1,
            r matches Err(e) ==> is_stdin_twice(e),
    {
        let mut count: usize = 0;
        let mut i: usize = 0;
        while i < sources.len()
            invariant
                i <= sources@.len(),
                count == stdin_count(sources@.subrange(0, i as int)),
                count <= 1,
            decreases sources@.len() - i,
        {
            let ghost next = sources@.subrange(0, i + 1);
            assert(next.drop_last() == sources@.subrange(0, i as int));
            if sources[i].is_stdin() {
                count = count + 1;
                if count > 1 {
                    proof {
                        lemma_stdin_count_grows(sources@, i + 1);
                    }
                    return Err(MdckError::Internal("You may only use stdin once".to_owned()));
                }
            }
            i = i + 1;
        }
        assert(sources@.subrange(0, sources@.len() as int) == sources@);
        Ok(())
    }
}

/// The count over a prefix is at most the count over the whole.
proof fn lemma_stdin_count_grows(s: Seq<Source>, k: int)
    requires
        0 <= k <= s.len(),
    ensures
        stdin_count(s.subrange(0, k)) <= stdin_count(s),
    decreases s.len() - k,
{
    if k < s.len() {
        lemma_stdin_count_grows(s, k + 1);
        let next = s.subrange(0, k + 1);
        assert(next.drop_last() == s.subrange(0, k));
    } else {
        assert(s.subrange(0, k) == s);
    }
}

/// A file name is markdown when it ends in `.md`.
pub open spec fn is_md_name(name: Seq<char>) -> bool {
    name.len() >= 3 && name.subrange(name.len() - 3, name.len() as int) == seq!['.', 'm', 'd']
}

/// Whether a file found in a directory tree is checked: its name ends in `.md`.
pub fn is_md(file_name: &str) -> (r: bool)
    ensures
        r == is_md_name(file_name@),
{
    let n = file_name.unicode_len();
    if n < 3 {
        return false;
    }
    let r = file_name.get_char(n - 3) == '.' && file_name.get_char(n - 2) == 'm'
        && file_name.get_char(n - 1) == 'd';
    let ghost tail = file_name@.subrange(n - 3, n as int);
    assert(r ==> tail =~= seq!['.', 'm', 'd']);
    assert(tail == seq!['.', 'm', 'd'] ==> tail[0] == '.' && tail[1] == 'm' && tail[2] == 'd');
    r
}

} // verus!
