//! What loading decides: which files hold documents, under which names, and
//! what becomes of a load in which a document failed to parse.

use crate::analysis::{Analysis, Package};
use crate::text::{decimal, push_decimal, str_eq};
use vstd::prelude::*;
use vstd::string::{StrSliceExecFns, StringExecFns};

verus! {

/// A document that could not be loaded: the file and what went wrong.
#[derive(Debug)]
pub struct LoadError {
    pub path: String,
    pub message: String,
}

/// How the tool that writes the documents failed.
#[derive(Debug, Clone, Copy, PartialEq, Eq, Structural)]
pub enum GenerateError {
    /// It ended with this exit code.
    ExitCode(i32),
    /// A signal ended it.
    Signal,
}

/// Whether `name` ends with `.json`.
pub open spec fn is_document(name: Seq<char>) -> bool {
    name.len() >= 5 && name.subrange(name.len() - 5, name.len() as int) == ".json"@
}

/// The name of the package whose document the file called `name` holds: the
/// part of the name before its last dot, or the whole name where there is
/// nothing before that dot. A file whose name does not end with `.json`
/// holds no document.
pub open spec fn stem(name: Seq<char>) -> Option<Seq<char>> {
    if !is_document(name) {
        None
    } else if name.len() == 5 {
        Some(name)
    } else {
        Some(name.subrange(0, name.len() - 5))
    }
}

/// The name of the package whose document a file holds, by the file's name.
pub fn package_name(file_name: &str) -> (r: Option<String>)
    ensures
        match stem(file_name@) {
            Some(name) => r matches Some(s) && s@ == name,
            None => r is None,
        },
{
    let n = file_name.unicode_len();
    if n < 5 {
        return None;
    }
    let ending = file_name.substring_char(n - 5, n);
    if !str_eq(ending, ".json") {
        return None;
    }
    if n == 5 {
        assert(file_name@.subrange(0, 5) =~= file_name@);
        Some(String::from_str(file_name))
    } else {
        Some(String::from_str(file_name.substring_char(0, n - 5)))
    }
}

/// The first failure among the results of parsing, if any.
pub open spec fn first_failure(parsed: Seq<Result<Package, LoadError>>) -> Option<LoadError>
    decreases parsed.len(),
{
    if parsed.len() == 0 {
        None
    } else {
        match parsed[0] {
            Err(e) => Some(e),
            Ok(_) => first_failure(parsed.drop_first()),
        }
    }
}

/// The documents among the results of parsing, in order.
pub open spec fn documents(parsed: Seq<Result<Package, LoadError>>) -> Seq<Package>
    decreases parsed.len(),
{
    if parsed.len() == 0 {
        Seq::empty()
    } else {
        match parsed[0] {
            Err(_) => documents(parsed.drop_first()),
            Ok(p) => seq![p] + documents(parsed.drop_first()),
        }
    }
}

/// What running the tool comes to, by how its process ended.
pub open spec fn exit_outcome(success: bool, code: Option<i32>) -> Result<(), GenerateError> {
    if success {
        Ok(())
    } else {
        match code {
            Some(c) => Err(GenerateError::ExitCode(c)),
            None => Err(GenerateError::Signal),
        }
    }
}

/// The numeral of an exit code.
pub open spec fn code_text(code: i32) -> Seq<char> {
    if code < 0 {
        "-"@ + decimal((-code) as nat)
    } else {
        decimal(code as nat)
    }
}

impl GenerateError {
    /// What is to be said of the failure.
    pub open spec fn text(self) -> Seq<char> {
        match self {
            GenerateError::ExitCode(c) => "'cargo build' failed with exit code "@ + code_text(c),
            GenerateError::Signal => "'cargo build' killed by signal"@,
        }
    }

    /// What is to be said of the failure.
    pub fn message(&self) -> (r: String)
        ensures
            r@ == self.text(),
    {
        match self {
            GenerateError::ExitCode(c) => {
                let mut out = String::from_str("'cargo build' failed with exit code ");
                if *c < 0 {
                    out.append("-");
                    let size: i64 = -(*c as i64);
                    push_decimal(&mut out, size as usize);
                } else {
                    push_decimal(&mut out, *c as usize);
                }
                assert(out@ =~= self.text());
                out
            },
            GenerateError::Signal => String::from_str("'cargo build' killed by signal"),
        }
    }
}

/// What running the tool comes to: success where its process succeeded, its
/// exit code where it ended with one, and otherwise that a signal ended it.
pub fn check_exit(success: bool, code: Option<i32>) -> (r: Result<(), GenerateError>)
    ensures
        r == exit_outcome(success, code),
{
    if success {
        Ok(())
    } else {
        match code {
            Some(c) => Err(GenerateError::ExitCode(c)),
            None => Err(GenerateError::Signal),
        }
    }
}

impl Analysis {
    /// The store of the parsed documents, in their order, or the first failure
    /// where one of them failed: a load comes to all of its documents or to
    /// none.
    pub fn load(parsed: Vec<Result<Package, LoadError>>) -> (r: Result<Analysis, LoadError>)
        ensures
            match first_failure(parsed@) {
                Some(e) => r == Err::<Analysis, LoadError>(e),
                None => r matches Ok(a) && a.crates@ == documents(parsed@),
            },
    {
        let mut rest = parsed;
        let mut crates: Vec<Package> = Vec::new();
        let mut failure: Option<LoadError> = None;
        let ghost all = rest@;
        assert(all.subrange(all.len() as int, all.len() as int) =~= Seq::empty());
        while rest.len() > 0
            invariant
                rest.len() <= all.len(),
                rest@ == all.subrange(0, rest.len() as int),
                failure == first_failure(all.subrange(rest.len() as int, all.len() as int)),
                crates@ == documents(all.subrange(rest.len() as int, all.len() as int)),
            decreases rest.len(),
        {
            let ghost k = rest.len() as int;
            let one = rest.pop().unwrap();
            proof {
                let tail = all.subrange(k - 1, all.len() as int);
                assert(tail[0] == one);
                assert(tail.drop_first() =~= all.subrange(k, all.len() as int));
                assert(rest@ =~= all.subrange(0, k - 1));
            }
            match one {
                Ok(package) => {
                    crates.insert(0, package);
                    assert(crates@ =~= seq![package] + documents(
                        all.subrange(k, all.len() as int),
                    ));
                },
                Err(e) => {
                    failure = Some(e);
                },
            }
        }
        assert(all.subrange(0, all.len() as int) =~= all);
        match failure {
            Some(e) => Err(e),
            None => Ok(Analysis { crates }),
        }
    }
}

} // verus!
